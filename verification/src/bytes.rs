//! Byte strings: searching, splitting and comparing.
//!
//! Paths, arguments and environment variables are byte strings throughout
//! the library, because Linux gives them no other structure.
use vstd::prelude::*;
use vstd::string::*;

verus! {

/// The byte `,`.
pub const COMMA: u8 = 0x2c;

/// The byte `-`.
pub const DASH: u8 = 0x2d;

/// The byte `/`.
pub const SLASH: u8 = 0x2f;

/// The byte `:`.
pub const COLON: u8 = 0x3a;

/// The byte `=`.
pub const EQUALS: u8 = 0x3d;

/// The byte ` `.
pub const SPACE: u8 = 0x20;

/// The line feed.
pub const NEWLINE: u8 = 0x0a;

/// The byte strings that a vector of byte vectors holds.
pub open spec fn views(v: Seq<Vec<u8>>) -> Seq<Seq<u8>> {
    v.map_values(|x: Vec<u8>| x@)
}

/// The byte string that an optional byte vector holds.
pub open spec fn opt_view(v: Option<Vec<u8>>) -> Option<Seq<u8>> {
    match v {
        Some(x) => Some(x@),
        None => None,
    }
}

/// The pieces of `s` between the occurrences of `sep`, in order. There is
/// always at least one, and a piece may be empty.
pub open spec fn split(s: Seq<u8>, sep: u8) -> Seq<Seq<u8>>
    decreases s.len(),
{
    match s.index_of_first(sep) {
        None => seq![s],
        Some(i) => if 0 <= i < s.len() {
            seq![s.take(i)] + split(s.skip(i + 1), sep)
        } else {
            seq![s]
        },
    }
}

/// The pieces put together again, with `sep` between each two of them.
pub open spec fn join(pieces: Seq<Seq<u8>>, sep: u8) -> Seq<u8>
    decreases pieces.len(),
{
    if pieces.len() == 0 {
        seq![]
    } else if pieces.len() == 1 {
        pieces[0]
    } else {
        pieces[0] + seq![sep] + join(pieces.skip(1), sep)
    }
}

/// Splitting loses nothing: joining the pieces gives the byte string back,
/// and no piece holds the separator.
pub proof fn split_then_join(s: Seq<u8>, sep: u8)
    ensures
        split(s, sep).len() >= 1,
        join(split(s, sep), sep) == s,
        forall|i: int| 0 <= i < split(s, sep).len() ==> !(#[trigger] split(s, sep)[i]).contains(
            sep,
        ),
    decreases s.len(),
{
    s.index_of_first_ensures(sep);
    if let Some(i) = s.index_of_first(sep) {
        let rest = split(s.skip(i + 1), sep);
        split_then_join(s.skip(i + 1), sep);
        assert(split(s, sep).skip(1) =~= rest);
        assert(s =~= s.take(i) + seq![sep] + s.skip(i + 1));
        assert forall|k: int| 0 <= k < split(s, sep).len() implies !(#[trigger] split(
            s,
            sep,
        )[k]).contains(sep) by {
            if k == 0 {
                assert forall|j: int| 0 <= j < i implies s.take(i)[j] != sep by {
                    assert(s.take(i)[j] == s[j]);
                }
            } else {
                assert(split(s, sep)[k] == rest[k - 1]);
            }
        }
    }
}

/// The lower-case form of an ASCII letter; any other byte is its own.
pub open spec fn ascii_lower(b: u8) -> u8 {
    if 0x41 <= b <= 0x5a {
        (b + 0x20) as u8
    } else {
        b
    }
}

/// Whether two byte strings differ at most in the case of ASCII letters.
pub open spec fn same_ignoring_case(a: Seq<u8>, b: Seq<u8>) -> bool {
    &&& a.len() == b.len()
    &&& forall|i: int| 0 <= i < a.len() ==> ascii_lower(#[trigger] a[i]) == ascii_lower(b[i])
}

/// Whether `s` begins with `prefix`.
pub open spec fn begins_with(s: Seq<u8>, prefix: Seq<u8>) -> bool {
    prefix.len() <= s.len() && s.take(prefix.len() as int) == prefix
}

/// The place of the first `b` in `s`.
pub(crate) fn position(s: &[u8], b: u8) -> (r: Option<usize>)
    ensures
        match r {
            Some(i) => s@.index_of_first(b) == Some(i as int) && i < s@.len(),
            None => s@.index_of_first(b) is None,
        },
{
    proof {
        s@.index_of_first_ensures(b);
    }
    let mut i: usize = 0;
    while i < s.len()
        invariant
            i <= s@.len(),
            forall|j: int| 0 <= j < i ==> s@[j] != b,
        decreases s@.len() - i,
    {
        if s[i] == b {
            proof {
                s@.index_of_first_ensures(b);
                assert(s@.contains(b));
            }
            return Some(i);
        }
        i += 1;
    }
    None
}

/// The bytes of `s` before `n`.
pub(crate) fn take(s: &[u8], n: usize) -> (r: Vec<u8>)
    requires
        n <= s@.len(),
    ensures
        r@ == s@.take(n as int),
{
    vstd::slice::slice_to_vec(vstd::slice::slice_subrange(s, 0, n))
}

/// The bytes of `s` from `n` on.
pub(crate) fn skip(s: &[u8], n: usize) -> (r: Vec<u8>)
    requires
        n <= s@.len(),
    ensures
        r@ == s@.skip(n as int),
{
    vstd::slice::slice_to_vec(vstd::slice::slice_subrange(s, n, s.len()))
}

/// The pieces of `s` between the occurrences of `sep`.
pub(crate) fn split_on(s: &[u8], sep: u8) -> (r: Vec<Vec<u8>>)
    ensures
        views(r@) == split(s@, sep),
{
    let mut out: Vec<Vec<u8>> = Vec::new();
    let mut rest: Vec<u8> = vstd::slice::slice_to_vec(s);
    proof {
        assert(views(out@) + split(rest@, sep) =~= split(s@, sep));
    }
    loop
        invariant
            views(out@) + split(rest@, sep) == split(s@, sep),
        decreases rest@.len(),
    {
        let len: usize = rest.len();
        let found = position(rest.as_slice(), sep);
        match found {
            None => {
                let ghost before = out@;
                out.push(rest);
                proof {
                    assert(views(out@) =~= views(before).push(rest@));
                    assert(views(before) + seq![rest@] =~= views(before).push(rest@));
                }
                return out;
            },
            Some(i) => {
                let ghost before = out@;
                let ghost whole = rest@;
                assert(i < len);
                let piece = take(rest.as_slice(), i);
                let tail = skip(rest.as_slice(), i + 1);
                out.push(piece);
                proof {
                    assert(views(out@) =~= views(before).push(piece@));
                    assert(split(whole, sep) == seq![whole.take(i as int)] + split(
                        whole.skip(i + 1),
                        sep,
                    ));
                    assert(views(before).push(piece@) + split(tail@, sep) =~= views(before) + (
                    seq![piece@] + split(tail@, sep)));
                }
                rest = tail;
            },
        }
    }
}

/// Whether two byte strings are equal.
pub(crate) fn same(a: &[u8], b: &[u8]) -> (r: bool)
    ensures
        r == (a@ == b@),
{
    if a.len() != b.len() {
        return false;
    }
    let mut i: usize = 0;
    while i < a.len()
        invariant
            i <= a@.len(),
            a@.len() == b@.len(),
            forall|j: int| 0 <= j < i ==> a@[j] == b@[j],
        decreases a@.len() - i,
    {
        if a[i] != b[i] {
            return false;
        }
        i += 1;
    }
    assert(a@ =~= b@);
    true
}

/// Whether a byte string is the given text.
pub(crate) fn is_text(s: &[u8], text: &str) -> (r: bool)
    ensures
        r == (s@ == text.spec_bytes()),
{
    same(s, text.as_bytes())
}

/// Whether a byte string begins with another.
pub(crate) fn has_prefix(s: &[u8], prefix: &[u8]) -> (r: bool)
    ensures
        r == begins_with(s@, prefix@),
{
    if s.len() < prefix.len() {
        return false;
    }
    same(vstd::slice::slice_subrange(s, 0, prefix.len()), prefix)
}

/// The lower-case form of an ASCII letter.
pub(crate) fn to_lower(b: u8) -> (r: u8)
    ensures
        r == ascii_lower(b),
{
    if 0x41 <= b && b <= 0x5a {
        b + 0x20
    } else {
        b
    }
}

/// Whether two byte strings differ at most in the case of ASCII letters.
pub(crate) fn eq_ignore_ascii_case(a: &[u8], b: &[u8]) -> (r: bool)
    ensures
        r == same_ignoring_case(a@, b@),
{
    if a.len() != b.len() {
        return false;
    }
    let mut i: usize = 0;
    while i < a.len()
        invariant
            i <= a@.len(),
            a@.len() == b@.len(),
            forall|j: int| 0 <= j < i ==> ascii_lower(a@[j]) == ascii_lower(b@[j]),
        decreases a@.len() - i,
    {
        if to_lower(a[i]) != to_lower(b[i]) {
            return false;
        }
        i += 1;
    }
    true
}

/// Appends a byte string.
pub(crate) fn push_bytes(out: &mut Vec<u8>, s: &[u8])
    ensures
        final(out)@ == old(out)@ + s@,
{
    out.extend_from_slice(s);
    assert(out@ =~= old(out)@ + s@);
}

/// Appends a text.
pub(crate) fn push_text(out: &mut Vec<u8>, text: &str)
    ensures
        final(out)@ == old(out)@ + text.spec_bytes(),
{
    push_bytes(out, text.as_bytes());
}

/// A copy of a byte string.
pub(crate) fn copy(s: &[u8]) -> (r: Vec<u8>)
    ensures
        r@ == s@,
{
    vstd::slice::slice_to_vec(s)
}

/// A copy of a list of byte strings.
pub(crate) fn copy_all(v: &Vec<Vec<u8>>) -> (r: Vec<Vec<u8>>)
    ensures
        views(r@) == views(v@),
{
    let mut out: Vec<Vec<u8>> = Vec::new();
    let mut i: usize = 0;
    while i < v.len()
        invariant
            i <= v@.len(),
            out@.len() == i,
            forall|j: int| 0 <= j < i ==> (#[trigger] out@[j])@ == v@[j]@,
        decreases v@.len() - i,
    {
        out.push(copy(v[i].as_slice()));
        i += 1;
    }
    assert(views(out@) =~= views(v@));
    out
}

/// Splitting takes a byte string apart at every separator and nowhere else:
/// what stands before the first one is a piece of its own, and what follows
/// is split alike.
pub proof fn splitting_is_at_separators(piece: Seq<u8>, rest: Seq<u8>, sep: u8)
    requires
        !piece.contains(sep),
    ensures
        split(piece, sep) == seq![piece],
        split(piece + seq![sep] + rest, sep) == seq![piece] + split(rest, sep),
{
    let s = piece + seq![sep] + rest;
    let n = piece.len() as int;
    piece.index_of_first_ensures(sep);
    s.index_of_first_ensures(sep);
    assert(s[n] == sep);
    let i = s.index_of_first(sep).unwrap();
    assert(i < n ==> piece[i] == s[i]);
    assert(s.take(n) =~= piece);
    assert(s.skip(n + 1) =~= rest);
}

/// Two byte strings are the same but for case exactly when they are of one
/// length and each byte of one is that of the other, or both are the same
/// letter of the alphabet, one in upper and one in lower case.
pub proof fn case_is_the_only_difference(a: Seq<u8>, b: Seq<u8>)
    ensures
        same_ignoring_case(a, b) <==> a.len() == b.len() && forall|i: int|
            0 <= i < a.len() ==> {
                ||| #[trigger] a[i] == b[i]
                ||| 0x41 <= a[i] <= 0x5a && b[i] == a[i] + 0x20
                ||| 0x41 <= b[i] <= 0x5a && a[i] == b[i] + 0x20
            },
{
    if same_ignoring_case(a, b) {
        assert forall|i: int| 0 <= i < a.len() implies {
            ||| #[trigger] a[i] == b[i]
            ||| 0x41 <= a[i] <= 0x5a && b[i] == a[i] + 0x20
            ||| 0x41 <= b[i] <= 0x5a && a[i] == b[i] + 0x20
        } by {
            assert(ascii_lower(a[i]) == ascii_lower(b[i]));
        }
    }
}

/// A byte string begins with another exactly when it is that other with
/// something after it.
pub proof fn a_beginning_is_followed_by_the_rest(s: Seq<u8>, prefix: Seq<u8>, rest: Seq<u8>)
    ensures
        begins_with(prefix + rest, prefix),
        begins_with(s, prefix) ==> s == prefix + s.skip(prefix.len() as int),
{
    let n = prefix.len() as int;
    assert((prefix + rest).take(n) =~= prefix);
    if begins_with(s, prefix) {
        assert forall|i: int| 0 <= i < n implies s[i] == prefix[i] by {
            assert(s.take(n)[i] == s[i]);
        }
        assert(s =~= prefix + s.skip(n));
    }
}

/// The pieces of two byte strings with a separator between them are the
/// pieces of the first and then those of the second.
pub proof fn lists_are_split_into_their_parts(a: Seq<u8>, b: Seq<u8>, sep: u8)
    ensures
        split(a + seq![sep] + b, sep) == split(a, sep) + split(b, sep),
    decreases a.len(),
{
    a.index_of_first_ensures(sep);
    let all = a + seq![sep] + b;
    match a.index_of_first(sep) {
        None => {
            splitting_is_at_separators(a, b, sep);
        },
        Some(i) => {
            let p = a.take(i);
            let r = a.skip(i + 1);
            assert forall|k: int| 0 <= k < i implies p[k] != sep by {
                assert(p[k] == a[k]);
            }
            lists_are_split_into_their_parts(r, b, sep);
            splitting_is_at_separators(p, r + seq![sep] + b, sep);
            assert(all =~= p + seq![sep] + (r + seq![sep] + b));
            assert(seq![p] + (split(r, sep) + split(b, sep)) =~= split(a, sep) + split(b, sep));
        },
    }
}

/// Byte vectors are seen as they are: each one, all of them, in order.
pub proof fn byte_strings_are_seen_whole(v: Seq<Vec<u8>>, i: int, one: Vec<u8>)
    ensures
        views(v).len() == v.len(),
        0 <= i < v.len() ==> views(v)[i] == v[i]@,
        opt_view(Some(one)) == Some(one@),
        opt_view(None) is None,
{
}

} // verus!
