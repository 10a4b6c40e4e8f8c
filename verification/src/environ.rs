//! The environment variables of a jailed process.
use crate::bytes::{copy, same};
use vstd::prelude::*;

verus! {

/// A set of environment variables, each with its value.
#[derive(Debug)]
pub struct Environ {
    vars: Vec<(Vec<u8>, Vec<u8>)>,
}

/// Names and values as byte strings.
pub open spec fn var_views(vars: Seq<(Vec<u8>, Vec<u8>)>) -> Seq<(Seq<u8>, Seq<u8>)> {
    vars.map_values(|v: (Vec<u8>, Vec<u8>)| (v.0@, v.1@))
}

/// The variables after the given ones were defined in order: one that was
/// defined before is replaced.
pub open spec fn define_all(
    env: Map<Seq<u8>, Seq<u8>>,
    vars: Seq<(Seq<u8>, Seq<u8>)>,
) -> Map<Seq<u8>, Seq<u8>>
    decreases vars.len(),
{
    if vars.len() == 0 {
        env
    } else {
        define_all(env, vars.drop_last()).insert(vars.last().0, vars.last().1)
    }
}

/// Whether no two of the variables have the same name.
pub open spec fn names_differ(vars: Seq<(Seq<u8>, Seq<u8>)>) -> bool {
    forall|i: int, j: int|
        0 <= i < j < vars.len() ==> (#[trigger] vars[i]).0 != (#[trigger] vars[j]).0
}

/// Among variables with different names each has its own value, and there
/// are no others.
pub proof fn define_all_is_lookup(vars: Seq<(Seq<u8>, Seq<u8>)>)
    requires
        names_differ(vars),
    ensures
        forall|i: int|
            0 <= i < vars.len() ==> define_all(Map::empty(), vars).contains_pair(
                (#[trigger] vars[i]).0,
                vars[i].1,
            ),
        forall|k: Seq<u8>|
            #[trigger] define_all(Map::empty(), vars).contains_key(k) ==> exists|i: int|
                0 <= i < vars.len() && (#[trigger] vars[i]).0 == k,
    decreases vars.len(),
{
    if vars.len() > 0 {
        let init = vars.drop_last();
        assert forall|i: int, j: int| 0 <= i < j < init.len() implies (#[trigger] init[i]).0 != (
        #[trigger] init[j]).0 by {
            assert(init[i] == vars[i] && init[j] == vars[j]);
        }
        define_all_is_lookup(init);
        let env = define_all(Map::empty(), vars);
        assert forall|i: int| 0 <= i < vars.len() implies env.contains_pair(
            (#[trigger] vars[i]).0,
            vars[i].1,
        ) by {
            if i < vars.len() - 1 {
                assert(init[i] == vars[i]);
                assert(vars[i].0 != vars[vars.len() - 1].0);
            }
        }
        assert forall|k: Seq<u8>| #[trigger] env.contains_key(k) implies exists|i: int|
            0 <= i < vars.len() && (#[trigger] vars[i]).0 == k by {
            if k == vars.last().0 {
                assert(vars[vars.len() - 1].0 == k);
            } else {
                assert(define_all(Map::empty(), init).contains_key(k));
                let i = choose|i: int| 0 <= i < init.len() && (#[trigger] init[i]).0 == k;
                assert(vars[i].0 == k);
            }
        }
    }
}

impl View for Environ {
    type V = Map<Seq<u8>, Seq<u8>>;

    /// The value of each variable that is defined.
    closed spec fn view(&self) -> Map<Seq<u8>, Seq<u8>> {
        define_all(Map::empty(), var_views(self.vars@))
    }
}

impl Environ {
    /// Whether each variable is held once.
    pub closed spec fn wf(self) -> bool {
        names_differ(var_views(self.vars@))
    }

    /// No variables.
    pub fn new() -> (r: Environ)
        ensures
            r.wf(),
            r@ == Map::<Seq<u8>, Seq<u8>>::empty(),
    {
        let r = Environ { vars: Vec::new() };
        assert(var_views(r.vars@) =~= Seq::empty());
        r
    }

    /// Defines a variable, in place of its former value if it has one.
    pub fn insert(&mut self, key: &[u8], val: &[u8])
        requires
            old(self).wf(),
        ensures
            final(self).wf(),
            final(self)@ == old(self)@.insert(key@, val@),
    {
        let ghost before = var_views(self.vars@);
        match self.position(key) {
            Some(i) => {
                self.vars[i] = (copy(key), copy(val));
                proof {
                    let after = var_views(self.vars@);
                    assert(after =~= before.update(i as int, (key@, val@)));
                    lemma_replace(before, i as int, val@);
                }
            },
            None => {
                self.vars.push((copy(key), copy(val)));
                proof {
                    let after = var_views(self.vars@);
                    assert(after =~= before.push((key@, val@)));
                    assert(after.drop_last() =~= before);
                }
            },
        }
    }

    /// The place where a variable is held.
    fn position(&self, key: &[u8]) -> (r: Option<usize>)
        ensures
            match r {
                Some(i) => i < self.vars@.len() && var_views(self.vars@)[i as int].0 == key@,
                None => forall|j: int|
                    0 <= j < self.vars@.len() ==> (#[trigger] var_views(self.vars@)[j]).0 != key@,
            },
    {
        let mut i: usize = 0;
        while i < self.vars.len()
            invariant
                i <= self.vars@.len(),
                forall|j: int|
                    0 <= j < i ==> (#[trigger] var_views(self.vars@)[j]).0 != key@,
            decreases self.vars@.len() - i,
        {
            assert(var_views(self.vars@)[i as int].0 == self.vars@[i as int].0@);
            if same(self.vars[i].0.as_slice(), key) {
                return Some(i);
            }
            i += 1;
        }
        None
    }

    /// The variables with their values, each once.
    pub fn entries(&self) -> (r: Vec<(Vec<u8>, Vec<u8>)>)
        requires
            self.wf(),
        ensures
            names_differ(var_views(r@)),
            define_all(Map::empty(), var_views(r@)) == self@,
    {
        let mut out: Vec<(Vec<u8>, Vec<u8>)> = Vec::new();
        let mut i: usize = 0;
        while i < self.vars.len()
            invariant
                i <= self.vars@.len(),
                out@.len() == i,
                forall|j: int|
                    0 <= j < i ==> (#[trigger] out@[j]).0@ == self.vars@[j].0@ && out@[j].1@
                        == self.vars@[j].1@,
            decreases self.vars@.len() - i,
        {
            out.push((copy(self.vars[i].0.as_slice()), copy(self.vars[i].1.as_slice())));
            i += 1;
        }
        assert(var_views(out@) =~= var_views(self.vars@));
        out
    }
}

proof fn lemma_replace(vars: Seq<(Seq<u8>, Seq<u8>)>, i: int, val: Seq<u8>)
    requires
        names_differ(vars),
        0 <= i < vars.len(),
    ensures
        names_differ(vars.update(i, (vars[i].0, val))),
        define_all(Map::empty(), vars.update(i, (vars[i].0, val))) == define_all(
            Map::empty(),
            vars,
        ).insert(vars[i].0, val),
{
    let after = vars.update(i, (vars[i].0, val));
    assert forall|a: int, b: int| 0 <= a < b < after.len() implies (#[trigger] after[a]).0 != (
    #[trigger] after[b]).0 by {
        assert(after[a].0 == vars[a].0 && after[b].0 == vars[b].0);
    }
    define_all_is_lookup(vars);
    define_all_is_lookup(after);
    let l = define_all(Map::empty(), after);
    let r = define_all(Map::empty(), vars).insert(vars[i].0, val);
    assert forall|k: Seq<u8>| l.contains_key(k) implies r.contains_key(k) && l[k] == r[k] by {
        let j = choose|j: int| 0 <= j < after.len() && (#[trigger] after[j]).0 == k;
        assert(vars[j].0 == k);
        assert(l.contains_pair(after[j].0, after[j].1));
        assert(define_all(Map::empty(), vars).contains_pair(vars[j].0, vars[j].1));
    }
    assert forall|k: Seq<u8>| r.contains_key(k) implies l.contains_key(k) by {
        if k == vars[i].0 {
            assert(after[i].0 == k);
            assert(l.contains_pair(after[i].0, after[i].1));
        } else {
            let j = choose|j: int| 0 <= j < vars.len() && (#[trigger] vars[j]).0 == k;
            assert(after[j].0 == k);
            assert(l.contains_pair(after[j].0, after[j].1));
        }
    }
    assert(l =~= r);
}

/// Where variables are defined in order, the last definition of a name
/// counts, and a name that is not defined keeps what it had before.
pub proof fn the_last_definition_counts(
    env: Map<Seq<u8>, Seq<u8>>,
    vars: Seq<(Seq<u8>, Seq<u8>)>,
    i: int,
    other: Seq<u8>,
)
    ensures
        0 <= i < vars.len() && (forall|j: int|
            i < j < vars.len() ==> (#[trigger] vars[j]).0 != vars[i].0) ==> {
            &&& define_all(env, vars).contains_key(vars[i].0)
            &&& define_all(env, vars)[vars[i].0] == vars[i].1
        },
        (forall|j: int| 0 <= j < vars.len() ==> (#[trigger] vars[j]).0 != other) ==> {
            &&& define_all(env, vars).contains_key(other) == env.contains_key(other)
            &&& env.contains_key(other) ==> define_all(env, vars)[other] == env[other]
        },
    decreases vars.len(),
{
    if vars.len() > 0 {
        let init = vars.drop_last();
        the_last_definition_counts(env, init, i, other);
        assert(vars[vars.len() - 1] == vars.last());
        assert forall|j: int| 0 <= j < init.len() implies init[j] == vars[j] by {}
    }
}

} // verus!
