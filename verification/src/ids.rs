//! Entity identifiers: a fresh 128-bit random value per entity, shown
//! and looked up through the first six hexadecimal digits.
use crate::text::{push_char, spec_contains, str_contains};
use vstd::prelude::*;

verus! {

/// Relies on uuid::Uuid::new_v4 for a fresh random 128-bit identifier;
/// nothing is promised of the value.
#[verifier::external_body]
pub(crate) fn fresh_id() -> (r: u128) {
    uuid::Uuid::new_v4().as_u128()
}

/// Lowercase hexadecimal digit of a value below sixteen.
pub open spec fn hex_char(d: int) -> char {
    if d < 10 {
        crate::money::digit_char(d)
    } else if d == 10 {
        'a'
    } else if d == 11 {
        'b'
    } else if d == 12 {
        'c'
    } else if d == 13 {
        'd'
    } else if d == 14 {
        'e'
    } else {
        'f'
    }
}

/// The six leading hexadecimal digits of an identifier: what the
/// display shows and prefix lookup scans.
pub open spec fn simple_id_spec(id: u128) -> Seq<char> {
    seq![
        hex_char(((id >> 124) & 0xf) as int),
        hex_char(((id >> 120) & 0xf) as int),
        hex_char(((id >> 116) & 0xf) as int),
        hex_char(((id >> 112) & 0xf) as int),
        hex_char(((id >> 108) & 0xf) as int),
        hex_char(((id >> 104) & 0xf) as int),
    ]
}

/// Hexadecimal digit character of a value below sixteen.
fn hex_to_char(d: u8) -> (c: char)
    requires
        d < 16,
    ensures
        c == hex_char(d as int),
{
    if d < 10 {
        crate::money::digit_to_char(d)
    } else if d == 10 {
        'a'
    } else if d == 11 {
        'b'
    } else if d == 12 {
        'c'
    } else if d == 13 {
        'd'
    } else if d == 14 {
        'e'
    } else {
        'f'
    }
}

/// Renders the six-character display form of an identifier.
pub fn simple_id(id: u128) -> (r: String)
    ensures
        r@ == simple_id_spec(id),
{
    let mut s = String::new();
    let n0 = ((id >> 124) & 0xf) as u8;
    let n1 = ((id >> 120) & 0xf) as u8;
    let n2 = ((id >> 116) & 0xf) as u8;
    let n3 = ((id >> 112) & 0xf) as u8;
    let n4 = ((id >> 108) & 0xf) as u8;
    let n5 = ((id >> 104) & 0xf) as u8;
    proof {
        assert((id >> 124) & 0xf < 16 && (id >> 120) & 0xf < 16 && (id >> 116) & 0xf < 16 && (id
            >> 112) & 0xf < 16 && (id >> 108) & 0xf < 16 && (id >> 104) & 0xf < 16) by (bit_vector);
    }
    push_char(&mut s, hex_to_char(n0));
    push_char(&mut s, hex_to_char(n1));
    push_char(&mut s, hex_to_char(n2));
    push_char(&mut s, hex_to_char(n3));
    push_char(&mut s, hex_to_char(n4));
    push_char(&mut s, hex_to_char(n5));
    assert(s@ =~= simple_id_spec(id));
    s
}

/// The user-typed query matches an identifier when it occurs inside the
/// six-character display form.
pub open spec fn id_matches(id: u128, query: Seq<char>) -> bool {
    spec_contains(simple_id_spec(id), query)
}

/// Whether the query occurs in the display form of `id`.
pub fn id_matches_exec(id: u128, query: &str) -> (r: bool)
    ensures
        r == id_matches(id, query@),
{
    let s = simple_id(id);
    str_contains(s.as_str(), query)
}

} // verus!
