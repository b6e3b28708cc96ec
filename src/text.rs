use vstd::prelude::*;
use vstd::string::StringSliceAdditionalSpecFns;
use vstd::utf8::{
    encode_utf8, is_char_boundary, length_of_first_scalar, pop_first_scalar, valid_utf8,
};

use crate::entity::EntityTypes;

verus! {

/// `"Block=>"` as bytes.
pub open spec fn block_view_prefix() -> Seq<u8> {
    seq![66u8, 108u8, 111u8, 99u8, 107u8, 61u8, 62u8]
}

/// Whether a view named `bs` shows one block: it starts with `Block=>`.
pub open spec fn names_block(bs: Seq<u8>) -> bool {
    bs.len() >= 7 && bs.subrange(0, 7) == block_view_prefix()
}

/// After a run of ASCII bytes at the start of valid UTF-8 a character starts.
proof fn lemma_ascii_prefix_boundary(bs: Seq<u8>, k: int)
    requires
        valid_utf8(bs),
        0 <= k <= bs.len(),
        forall|i: int| 0 <= i < k ==> bs[i] < 128,
    ensures
        is_char_boundary(bs, k),
    decreases k,
{
    if k > 0 {
        let rest = bs.subrange(1, bs.len() as int);
        assert(length_of_first_scalar(bs) == 1);
        assert(pop_first_scalar(bs) =~= rest);
        assert(valid_utf8(rest));
        assert forall|i: int| 0 <= i < k - 1 implies rest[i] < 128 by {
            assert(rest[i] == bs[i + 1]);
        }
        lemma_ascii_prefix_boundary(rest, k - 1);
    }
}

/// The name of the block that a view `Block=><name>` shows, if it is one.
pub fn view_as_block_key(view: &String) -> (r: Option<String>)
    ensures
        r is Some <==> names_block(encode_utf8(view@)),
        r matches Some(k) ==> encode_utf8(k@) == encode_utf8(view@).subrange(
            7,
            encode_utf8(view@).len() as int,
        ),
{
    let s = view.as_str();
    let bs = s.as_bytes();
    if bs.len() < 7 || bs[0] != 66 || bs[1] != 108 || bs[2] != 111 || bs[3] != 99 || bs[4] != 107
        || bs[5] != 61 || bs[6] != 62 {
        proof {
            if bs@.len() >= 7 && bs@.subrange(0, 7) == block_view_prefix() {
                assert(bs@[0] == bs@.subrange(0, 7)[0]);
                assert(bs@[1] == bs@.subrange(0, 7)[1]);
                assert(bs@[2] == bs@.subrange(0, 7)[2]);
                assert(bs@[3] == bs@.subrange(0, 7)[3]);
                assert(bs@[4] == bs@.subrange(0, 7)[4]);
                assert(bs@[5] == bs@.subrange(0, 7)[5]);
                assert(bs@[6] == bs@.subrange(0, 7)[6]);
            }
        }
        return None;
    }
    proof {
        assert(bs@.subrange(0, 7) =~= block_view_prefix());
        vstd::utf8::encode_utf8_valid_utf8(view@);
        lemma_ascii_prefix_boundary(bs@, 7);
    }
    let (_, rest) = s.split_at(7);
    Some(rest.to_owned())
}

/// `bs` with every `-` byte removed.
pub open spec fn strip_hyphens(bs: Seq<u8>) -> Seq<u8>
    decreases bs.len(),
{
    if bs.len() == 0 {
        bs
    } else if bs.last() == 45u8 {
        strip_hyphens(bs.drop_last())
    } else {
        strip_hyphens(bs.drop_last()).push(bs.last())
    }
}

/// The identity token of an id: its bytes without hyphens, if there are
/// exactly 32 of them.
pub fn parse_entity_index(entity_ind: &str) -> (r: Option<Vec<u8>>)
    ensures
        r is Some <==> strip_hyphens(entity_ind.spec_bytes()).len() == 32,
        r matches Some(v) ==> v@ == strip_hyphens(entity_ind.spec_bytes()),
{
    let bs = entity_ind.as_bytes();
    let n = bs.len();
    let mut out: Vec<u8> = Vec::new();
    let mut i: usize = 0;
    while i < n
        invariant
            n == bs@.len(),
            0 <= i <= n,
            out@ == strip_hyphens(bs@.subrange(0, i as int)),
        decreases n - i,
    {
        proof {
            assert(bs@.subrange(0, i as int + 1).drop_last() =~= bs@.subrange(0, i as int));
        }
        if bs[i] != 45 {
            out.push(bs[i]);
        }
        i = i + 1;
    }
    proof {
        assert(bs@.subrange(0, n as int) =~= bs@);
    }
    if out.len() != 32 {
        return None;
    }
    Some(out)
}

/// The kind that a record's type tag names; tags are case-sensitive.
pub open spec fn kind_of_tag(tag: Seq<char>) -> Option<EntityTypes> {
    if tag == "POINT"@ {
        Some(EntityTypes::Point)
    } else if tag == "LINE"@ || tag == "LWLINE"@ {
        Some(EntityTypes::Line)
    } else if tag == "POLYLINE"@ || tag == "LWPOLYLINE"@ {
        Some(EntityTypes::Polyline)
    } else if tag == "TEXT"@ {
        Some(EntityTypes::Text)
    } else if tag == "INSERT"@ {
        Some(EntityTypes::Insert)
    } else {
        None
    }
}

/// Maps a record's type tag to its kind, once, at construction.
pub fn entity_kind(tag: &String) -> (r: Option<EntityTypes>)
    ensures
        r == kind_of_tag(tag@),
{
    if *tag == "POINT".to_owned() {
        Some(EntityTypes::Point)
    } else if *tag == "LINE".to_owned() || *tag == "LWLINE".to_owned() {
        Some(EntityTypes::Line)
    } else if *tag == "POLYLINE".to_owned() || *tag == "LWPOLYLINE".to_owned() {
        Some(EntityTypes::Polyline)
    } else if *tag == "TEXT".to_owned() {
        Some(EntityTypes::Text)
    } else if *tag == "INSERT".to_owned() {
        Some(EntityTypes::Insert)
    } else {
        None
    }
}

pub open spec fn is_digit(c: char) -> bool {
    '0' <= c <= '9'
}

/// The value of a string of decimal digits.
pub open spec fn digits_value(ds: Seq<char>) -> int
    decreases ds.len(),
{
    if ds.len() == 0 {
        0
    } else {
        digits_value(ds.drop_last()) * 10 + (ds.last() as u32 - 48)
    }
}

/// An `i32` written in decimal: an optional `+` or `-`, then one or more
/// ASCII digits, with a value in range.
pub open spec fn decimal_i32(s: Seq<char>) -> Option<i32> {
    let signed = s.len() > 0 && (s[0] == '-' || s[0] == '+');
    let ds = if signed {
        s.drop_first()
    } else {
        s
    };
    let v = if s.len() > 0 && s[0] == '-' {
        -digits_value(ds)
    } else {
        digits_value(ds)
    };
    if ds.len() > 0 && (forall|i: int| 0 <= i < ds.len() ==> is_digit(#[trigger] ds[i])) && i32::MIN
        <= v <= i32::MAX {
        Some(v as i32)
    } else {
        None
    }
}

/// Relies on std's `str::parse::<i32>` (`i32::from_str`), which accepts an
/// optional `+` or `-` sign followed by ASCII digits and fails on anything
/// else, and on values out of range.
#[verifier::external_body]
pub(crate) fn parse_layer(layer: &str) -> (r: Option<i32>)
    ensures
        r == decimal_i32(layer@),
{
    layer.parse::<i32>().ok()
}

} // verus!
