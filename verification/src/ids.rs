//! Identifiers of entities: UUIDs as numbers, and their texts.

use vstd::arithmetic::power::pow;
use vstd::prelude::*;

verus! {

/// A hexadecimal digit.
pub open spec fn hex_digit(d: int) -> char {
    if d < 10 {
        (('0' as u32) + d) as char
    } else {
        (('a' as u32) + d - 10) as char
    }
}

/// The hexadecimal digit of a number at a place, counted from the most
/// significant of thirty-two.
pub open spec fn nibble(id: u128, place: int) -> int {
    (id as int / pow(16, (31 - place) as nat)) % 16
}

/// How many hyphens stand before a place in the text of a UUID.
pub open spec fn hyphens_before(i: int) -> int {
    if i < 8 {
        0
    } else if i < 13 {
        1
    } else if i < 18 {
        2
    } else if i < 23 {
        3
    } else {
        4
    }
}

/// The text of a UUID: its digits in groups of eight, four, four, four and twelve
/// with hyphens between them.
pub open spec fn uuid_text(id: u128) -> Seq<char> {
    Seq::new(
        36,
        |i: int|
            if i == 8 || i == 13 || i == 18 || i == 23 {
                '-'
            } else {
                hex_digit(nibble(id, i - hyphens_before(i)))
            },
    )
}

/// The UUID that a text stands for, or why it stands for none.
pub uninterp spec fn uuid_in(text: Seq<char>) -> Result<u128, Seq<char>>;

/// The `Display` form of `uuid::Uuid` is its hyphenated text in lower case, which
/// `uuid::Uuid::parse_str` reads back.
#[verifier::external_body]
pub(crate) fn format_uuid(id: u128) -> (r: String)
    ensures
        r@ == uuid_text(id),
        uuid_in(r@) is Ok && uuid_in(r@)->Ok_0 == id,
{
    uuid::Uuid::from_u128(id).to_string()
}

/// `uuid::Uuid::parse_str` reads a UUID in any of the usual forms. What it gives,
/// and the words of its error where it gives none, depend on the text alone.
#[verifier::external_body]
pub(crate) fn parse_uuid(text: &str) -> (r: Result<u128, String>)
    ensures
        match (r, uuid_in(text@)) {
            (Ok(id), Ok(x)) => id == x,
            (Err(why), Err(w)) => why@ == w,
            _ => false,
        },
{
    uuid::Uuid::parse_str(text).map(|u| u.as_u128()).map_err(|e| e.to_string())
}

} // verus!
