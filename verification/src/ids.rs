//! Reset-group identifiers.
//!
//! A reset group is named by the 128 bits of a version-4 UUID. The library
//! holds the bits; the uuid crate supplies generation, the hyphenated
//! textual form, and parsing.

use vstd::prelude::*;

verus! {

/// The hyphenated textual form of a reset-group identifier, as
/// uuid::Uuid's display form renders it.
pub uninterp spec fn uuid_str_of(n: u128) -> Seq<char>;

/// What parsing a candidate identifier text yields, if anything, as
/// uuid::Uuid::parse_str decides it.
pub uninterp spec fn uuid_of(s: Seq<char>) -> Option<u128>;

/// Relies on uuid::Uuid::new_v4 for a random identifier. The version field
/// it forces to 4 zeroes some bits, so the value is never all ones.
#[verifier::external_body]
pub(crate) fn fresh_reset_id() -> (r: u128)
    ensures
        r < u128::MAX,
{
    uuid::Uuid::new_v4().as_u128()
}

/// Relies on uuid::Uuid::parse_str, a function of the text alone.
#[verifier::external_body]
pub(crate) fn parse_reset_id(s: &str) -> (r: Option<u128>)
    ensures
        r == uuid_of(s@),
{
    uuid::Uuid::parse_str(s).ok().map(|u| u.as_u128())
}

/// Relies on uuid::Uuid's display form, a function of the value alone,
/// which uuid::Uuid::parse_str parses back to the same value.
#[verifier::external_body]
pub(crate) fn format_reset_id(n: u128) -> (r: String)
    ensures
        r@ == uuid_str_of(n),
        uuid_of(r@) == Some(n),
{
    uuid::Uuid::from_u128(n).to_string()
}

} // verus!
