//! Identifiers: the 128-bit value of a UUID (crate `uuid`).
use vstd::prelude::*;
use vstd::arithmetic::power::pow;

verus! {

/// The value that `Uuid::parse_str` reads from `s`, if it reads one.
pub uninterp spec fn uuid_parsed(s: Seq<char>) -> Option<u128>;

/// The lower-case hexadecimal digit of `n` (0 to 15).
pub open spec fn hex_digit(n: int) -> char {
    if n < 10 { ('0' as int + n) as char } else { ('a' as int + (n - 10)) as char }
}

/// The 32 hexadecimal digits of `id`, most significant first.
pub open spec fn hex_digits(id: u128) -> Seq<char> {
    Seq::new(32, |k: int| hex_digit((id as int / pow(16, (31 - k) as nat)) % 16))
}

/// The hyphenated lower-case text that `Uuid`'s `to_string` writes for `id`:
/// its 32 hexadecimal digits, most significant first, in groups of 8, 4, 4, 4
/// and 12 joined by hyphens.
#[verifier::opaque]
pub open spec fn uuid_text(id: u128) -> Seq<char> {
    let d = hex_digits(id);
    d.subrange(0, 8) + seq!['-'] + d.subrange(8, 12) + seq!['-'] + d.subrange(12, 16)
        + seq!['-'] + d.subrange(16, 20) + seq!['-'] + d.subrange(20, 32)
}

/// A fresh random identifier: `Uuid::new_v4()`, taken as its 128-bit value.
/// Nothing is promised of the value: it is random.
#[verifier::external_body]
pub(crate) fn new_id() -> (id: u128) {
    uuid::Uuid::new_v4().as_u128()
}

/// `Uuid::parse_str(s)`, taken as its 128-bit value; `None` where the crate
/// reports an error. The result is named by `uuid_parsed`.
#[verifier::external_body]
pub(crate) fn parse_id(s: &str) -> (r: Option<u128>)
    ensures
        r == uuid_parsed(s@),
{
    match uuid::Uuid::parse_str(s) {
        Ok(u) => Some(u.as_u128()),
        Err(_) => None,
    }
}

/// `Uuid::to_string` of the identifier `id`: the text `uuid_text` states.
#[verifier::external_body]
pub(crate) fn id_text(id: u128) -> (s: String)
    ensures
        s@ == uuid_text(id),
{
    uuid::Uuid::from_u128(id).to_string()
}

} // verus!
