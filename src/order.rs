use vstd::prelude::*;
use vstd::utf8::encode_utf8;

verus! {

/// `a` comes before `b`, or equals it, in lexicographic order of bytes.
pub open spec fn bytes_le(a: Seq<u8>, b: Seq<u8>) -> bool
    decreases a.len(),
{
    if a.len() == 0 {
        true
    } else if b.len() == 0 {
        false
    } else if a[0] != b[0] {
        a[0] < b[0]
    } else {
        bytes_le(a.drop_first(), b.drop_first())
    }
}

pub open spec fn ascending(s: Seq<i32>) -> bool {
    forall|i: int, j: int| 0 <= i < j < s.len() ==> s[i] <= s[j]
}

/// Ascending in the order of `String`: lexicographic on the UTF-8 bytes.
pub open spec fn strings_ascending(s: Seq<String>) -> bool {
    forall|i: int, j: int|
        0 <= i < j < s.len() ==> bytes_le(encode_utf8(#[trigger] s[i]@), encode_utf8(#[trigger] s[j]@))
}

pub open spec fn string_views(s: Seq<String>) -> Seq<Seq<char>> {
    s.map_values(|x: String| x@)
}

/// Relies on std's `slice::sort` on `i32`: the same values, ascending.
#[verifier::external_body]
pub(crate) fn sort_layers(v: &mut Vec<i32>)
    ensures
        final(v)@.to_multiset() == old(v)@.to_multiset(),
        ascending(final(v)@),
{
    v.sort();
}

/// Relies on std's `slice::sort` on `String`, whose order compares the bytes
/// lexicographically: the same strings, ascending.
#[verifier::external_body]
pub(crate) fn sort_names(v: &mut Vec<String>)
    ensures
        string_views(final(v)@).to_multiset() == string_views(old(v)@).to_multiset(),
        strings_ascending(final(v)@),
{
    v.sort();
}

} // verus!
