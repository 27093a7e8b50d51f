//! Identifiers and clock readings, held as plain integers.
use vstd::prelude::*;

verus! {

/// The lower-case hex digit for `d` < 16.
pub open spec fn hex_digit(d: u128) -> char {
    if d < 10 {
        seq!['0', '1', '2', '3', '4', '5', '6', '7', '8', '9'][d as int]
    } else {
        seq!['a', 'b', 'c', 'd', 'e', 'f'][d - 10]
    }
}

/// Hex digits `from` to `to` of an identifier, the most significant first.
pub open spec fn hex_digits(id: u128, from: int, to: int) -> Seq<char> {
    Seq::new((to - from) as nat, |i: int| hex_digit((id >> ((124 - 4 * (from + i)) as u128)) & 15))
}

/// The canonical text of an identifier: its 32 lower-case hex digits in
/// groups of 8-4-4-4-12, separated by hyphens.
pub open spec fn hyphenated(id: u128) -> Seq<char> {
    hex_digits(id, 0, 8) + seq!['-'] + hex_digits(id, 8, 12) + seq!['-'] + hex_digits(id, 12, 16)
        + seq!['-'] + hex_digits(id, 16, 20) + seq!['-'] + hex_digits(id, 20, 32)
}

/// The identifier that a text denotes, if it denotes one.
pub uninterp spec fn parsed_id(text: Seq<char>) -> Option<u128>;

/// A fresh random identifier.
/// Relies on uuid::Uuid::new_v4: a random version-4 identifier; nothing is
/// promised of its value.
#[verifier::external_body]
pub(crate) fn fresh_id() -> (r: u128) {
    uuid::Uuid::new_v4().as_u128()
}

/// Relies on uuid's `Display` for `Uuid`: the hyphenated form, in lower case.
#[verifier::external_body]
pub(crate) fn id_text(id: u128) -> (r: String)
    ensures
        r@ == hyphenated(id),
{
    uuid::Uuid::from_u128(id).to_string()
}

/// Relies on uuid::Uuid::try_parse: the identifier written in a text, if the
/// text is one of the forms that uuid reads.
#[verifier::external_body]
pub(crate) fn parse_id(text: &str) -> (r: Option<u128>)
    ensures
        r == parsed_id(text@),
{
    uuid::Uuid::try_parse(text).ok().map(|u| u.as_u128())
}

/// The current time in microseconds since the Unix epoch.
/// Relies on chrono::Utc::now and `DateTime::timestamp_micros`; nothing is
/// promised of the reading.
#[verifier::external_body]
pub(crate) fn now_micros() -> (r: i64) {
    chrono::Utc::now().timestamp_micros()
}

} // verus!
