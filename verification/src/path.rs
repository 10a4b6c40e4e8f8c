//! Paths as byte strings.
use crate::bytes::{
    begins_with, copy, is_text, lists_are_split_into_their_parts, push_bytes, push_text, split,
    split_on, split_then_join, splitting_is_at_separators, views, SLASH,
};
use vstd::prelude::*;
use vstd::string::*;

verus! {

/// Those of the pieces between the slashes of a path that name a place: not
/// an empty one, and `.` only at the beginning of the path.
pub open spec fn named_pieces(pieces: Seq<Seq<u8>>, first: bool) -> Seq<Seq<u8>>
    decreases pieces.len(),
{
    if pieces.len() == 0 {
        Seq::empty()
    } else {
        let rest = named_pieces(pieces.skip(1), false);
        if pieces[0].len() == 0 || (!first && pieces[0] == ".".spec_bytes()) {
            rest
        } else {
            seq![pieces[0]] + rest
        }
    }
}

/// The components of a path below the root.
pub open spec fn components(path: Seq<u8>) -> Seq<Seq<u8>> {
    named_pieces(split(path, SLASH), true)
}

/// A path with a relative one after it, with a slash between them unless the
/// first is empty or already ends in one.
pub open spec fn joined(base: Seq<u8>, relative: Seq<u8>) -> Seq<u8> {
    if base.len() > 0 && base.last() != SLASH {
        base + "/".spec_bytes() + relative
    } else {
        base + relative
    }
}

/// A path with components after it.
pub open spec fn extended(base: Seq<u8>, comps: Seq<Seq<u8>>) -> Seq<u8>
    decreases comps.len(),
{
    if comps.len() == 0 {
        base
    } else {
        joined(extended(base, comps.drop_last()), comps.last())
    }
}

/// The place below `base` that a path names when `base` is taken as the root.
pub open spec fn rebased(base: Seq<u8>, path: Seq<u8>) -> Seq<u8> {
    extended(base, components(path))
}

/// Appends a relative path.
fn push_component(path: &mut Vec<u8>, relative: &[u8])
    ensures
        final(path)@ == joined(old(path)@, relative@),
{
    if path.len() > 0 && path[path.len() - 1] != SLASH {
        push_text(path, "/");
    }
    push_bytes(path, relative);
}

/// A path with a name after it.
pub(crate) fn join_name(base: &[u8], name: &str) -> (r: Vec<u8>)
    ensures
        r@ == joined(base@, name.spec_bytes()),
{
    let mut out = copy(base);
    push_component(&mut out, name.as_bytes());
    out
}

proof fn lemma_extended_append(base: Seq<u8>, a: Seq<Seq<u8>>, b: Seq<Seq<u8>>)
    ensures
        extended(extended(base, a), b) == extended(base, a + b),
    decreases b.len(),
{
    if b.len() == 0 {
        assert(a + b =~= a);
    } else {
        lemma_extended_append(base, a, b.drop_last());
        assert((a + b).drop_last() =~= a + b.drop_last());
        assert((a + b).last() == b.last());
    }
}

/// The place below `base` that a path names when `base` is taken as the root.
pub(crate) fn rebase(base: &[u8], path: &[u8]) -> (r: Vec<u8>)
    ensures
        r@ == rebased(base@, path@),
{
    let pieces = split_on(path, SLASH);
    let mut out = copy(base);
    let mut i: usize = 0;
    let ghost all = views(pieces@);
    assert(all.skip(0) =~= all);
    while i < pieces.len()
        invariant
            i <= pieces@.len(),
            all == views(pieces@),
            extended(out@, named_pieces(all.skip(i as int), i == 0)) == rebased(base@, path@),
        decreases pieces@.len() - i,
    {
        let ghost before = out@;
        let ghost rest = named_pieces(all.skip(i + 1), false);
        proof {
            assert(all.skip(i as int).skip(1) =~= all.skip(i + 1));
            assert(all.skip(i as int)[0] == pieces@[i as int]@);
        }
        if pieces[i].len() == 0 || (i > 0 && is_text(pieces[i].as_slice(), ".")) {
        } else {
            push_component(&mut out, pieces[i].as_slice());
            proof {
                let p = pieces@[i as int]@;
                lemma_extended_append(before, seq![p], rest);
                assert(seq![p].drop_last() =~= Seq::<Seq<u8>>::empty());
                assert(extended(before, seq![p].drop_last()) == before);
                assert(extended(before, seq![p]) == joined(before, p));
            }
        }
        i += 1;
    }
    assert(all.skip(i as int) =~= Seq::<Seq<u8>>::empty());
    out
}

proof fn lemma_extended_begins(base: Seq<u8>, comps: Seq<Seq<u8>>)
    ensures
        begins_with(extended(base, comps), base),
    decreases comps.len(),
{
    if comps.len() == 0 {
        assert(base.take(base.len() as int) =~= base);
    } else {
        let part = extended(base, comps.drop_last());
        lemma_extended_begins(base, comps.drop_last());
        let n = base.len() as int;
        assert(joined(part, comps.last()).take(n) =~= part.take(n));
    }
}

/// Wherever a path leads, its place in the jail is written below the root of
/// the jail; the path `/` is that root.
pub proof fn a_rebased_path_begins_with_its_base(base: Seq<u8>, path: Seq<u8>)
    ensures
        begins_with(rebased(base, path), base),
        rebased(base, seq![SLASH]) == base,
{
    lemma_extended_begins(base, components(path));
    let root = seq![SLASH];
    root.index_of_first_ensures(SLASH);
    assert(root[0] == SLASH);
    assert(root.index_of_first(SLASH) == Some(0int));
    assert(root.take(0) =~= Seq::empty());
    assert(root.skip(1) =~= Seq::empty());
    let none = Seq::<u8>::empty();
    none.index_of_first_ensures(SLASH);
    assert(split(none, SLASH) =~= seq![none]);
    assert(split(root, SLASH) =~= seq![none, none]);
    assert(seq![none, none].skip(1) =~= seq![none]);
    assert(seq![none].skip(1) =~= Seq::empty());
    reveal_with_fuel(named_pieces, 3);
    assert(components(root) =~= Seq::empty());
}

proof fn lemma_named_pieces_append(a: Seq<Seq<u8>>, b: Seq<Seq<u8>>, first: bool)
    ensures
        named_pieces(a + b, first) == named_pieces(a, first) + named_pieces(
            b,
            first && a.len() == 0,
        ),
    decreases a.len(),
{
    if a.len() == 0 {
        assert(a + b =~= b);
        assert(named_pieces(a, first) + named_pieces(b, first) =~= named_pieces(b, first));
    } else {
        assert((a + b).skip(1) =~= a.skip(1) + b);
        lemma_named_pieces_append(a.skip(1), b, false);
        assert(named_pieces(a + b, first) =~= named_pieces(a, first) + named_pieces(b, false));
    }
}

proof fn lemma_components_append(a: Seq<u8>, b: Seq<u8>)
    ensures
        components(a + seq![SLASH] + b) == components(a) + named_pieces(split(b, SLASH), false),
{
    split_then_join(a, SLASH);
    lists_are_split_into_their_parts(a, b, SLASH);
    lemma_named_pieces_append(split(a, SLASH), split(b, SLASH), true);
}

proof fn lemma_one_piece(name: Seq<u8>, first: bool)
    requires
        !name.contains(SLASH),
    ensures
        split(name, SLASH) == seq![name],
        named_pieces(seq![name], first) == if name.len() == 0 || (!first && name
            == ".".spec_bytes()) {
            Seq::empty()
        } else {
            seq![name]
        },
{
    splitting_is_at_separators(name, name, SLASH);
    assert(seq![name].skip(1) =~= Seq::empty());
    assert(seq![name] + Seq::<Seq<u8>>::empty() =~= seq![name]);
    assert(named_pieces(seq![name].skip(1), false) == Seq::<Seq<u8>>::empty());
}

/// The path `.`.
proof fn lemma_dot()
    ensures
        ".".spec_bytes() == seq![0x2eu8],
{
    reveal_strlit(".");
    assert(".".is_ascii());
    assert(".".spec_bytes() =~= seq![0x2eu8]);
}

/// The components of a path are the names in it, in order: a name after a
/// slash is one more, and a name alone is the only one. More slashes than
/// one, dots between slashes, and slashes at the end do not count, nor do
/// slashes at the beginning.
pub proof fn components_are_the_names(path: Seq<u8>, rest: Seq<u8>, name: Seq<u8>)
    requires
        name.len() > 0,
        !name.contains(0x2f),
    ensures
        components(name) == seq![name],
        name != seq![0x2eu8] ==> components(path + seq![0x2fu8] + name) == components(path).push(
            name,
        ),
        name != seq![0x2eu8] ==> components(seq![0x2fu8] + name) == seq![name],
        components(path + seq![0x2fu8, 0x2fu8] + rest) == components(path + seq![0x2fu8] + rest),
        components(path + seq![0x2fu8, 0x2eu8, 0x2fu8] + rest) == components(
            path + seq![0x2fu8] + rest,
        ),
        components(path + seq![0x2fu8]) == components(path),
        components(path + seq![0x2fu8, 0x2eu8]) == components(path),
        components(Seq::empty()).len() == 0,
{
    lemma_dot();
    let none = Seq::<u8>::empty();
    let dot = seq![0x2eu8];
    let no_names = Seq::<Seq<u8>>::empty();
    lemma_one_piece(name, true);
    lemma_one_piece(name, false);
    lemma_one_piece(none, true);
    lemma_one_piece(none, false);
    lemma_one_piece(dot, false);
    lemma_components_append(path, name);
    assert(components(path) + seq![name] =~= components(path).push(name));
    lemma_components_append(none, name);
    assert(none + seq![SLASH] + name =~= seq![SLASH] + name);
    assert(no_names + seq![name] =~= seq![name]);
    lemma_components_append(path, rest);
    let slashed = seq![SLASH] + rest;
    lemma_components_append(path, slashed);
    assert(path + seq![SLASH] + slashed =~= path + seq![0x2fu8, 0x2fu8] + rest);
    lists_are_split_into_their_parts(none, rest, SLASH);
    assert(none + seq![SLASH] + rest =~= slashed);
    lemma_named_pieces_append(seq![none], split(rest, SLASH), false);
    assert(no_names + named_pieces(split(rest, SLASH), false) =~= named_pieces(
        split(rest, SLASH),
        false,
    ));
    let dotted = dot + seq![SLASH] + rest;
    lemma_components_append(path, dotted);
    assert(path + seq![SLASH] + dotted =~= path + seq![0x2fu8, 0x2eu8, 0x2fu8] + rest);
    lists_are_split_into_their_parts(dot, rest, SLASH);
    lemma_named_pieces_append(seq![dot], split(rest, SLASH), false);
    lemma_components_append(path, none);
    assert(path + seq![SLASH] + none =~= path + seq![0x2fu8]);
    assert(components(path) + no_names =~= components(path));
    lemma_components_append(path, dot);
    assert(path + seq![SLASH] + dot =~= path + seq![0x2fu8, 0x2eu8]);
}

/// A relative path stands after another with exactly one slash between them:
/// one of its own, unless the first already ends in one or is empty.
pub proof fn joined_paths_have_one_slash_between(base: Seq<u8>, relative: Seq<u8>)
    ensures
        ({
            let path = joined(base, relative);
            &&& base.len() == 0 || base.last() == 0x2f ==> path == base + relative
            &&& base.len() > 0 && base.last() != 0x2f ==> path == base + seq![0x2fu8] + relative
        }),
{
    reveal_strlit("/");
    assert("/".is_ascii());
    assert("/".spec_bytes() =~= seq![0x2fu8]);
}

/// The place of a path in the jail is the root of the jail with the names of
/// the path after it, one after the other.
pub proof fn places_follow_the_names(base: Seq<u8>, path: Seq<u8>, name: Seq<u8>)
    requires
        name.len() > 0,
        !name.contains(0x2f),
        name != seq![0x2eu8],
    ensures
        rebased(base, Seq::empty()) == base,
        rebased(base, path + seq![0x2fu8] + name) == joined(rebased(base, path), name),
        rebased(base, name) == joined(base, name),
        rebased(base, path + seq![0x2fu8]) == rebased(base, path),
{
    components_are_the_names(path, path, name);
    let names = components(path).push(name);
    assert(names.drop_last() =~= components(path));
    assert(seq![name].drop_last() =~= Seq::empty());
    assert(extended(base, seq![name].drop_last()) == base);
}

} // verus!
