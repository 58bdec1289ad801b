//! Identifiers of routes and route parameters: the 64-bit values of
//! `makepad_live_id::LiveId`, hashed from text.

use vstd::prelude::*;

verus! {

/// The identifier that `makepad_live_id::LiveId::from_str` gives a text.
pub uninterp spec fn live_id_of(s: Seq<char>) -> u64;

/// Relies on `makepad_live_id::LiveId::from_str`: a hash of the text's bytes
/// alone, with the top bit set to mark it as a hashed id.
#[verifier::external_body]
fn live_id_from_str(s: &str) -> (r: u64)
    ensures
        r == live_id_of(s@),
        r >= 0x8000_0000_0000_0000u64,
{
    makepad_live_id::LiveId::from_str(s).0
}

/// The identifier of a route or parameter name.
pub fn live_id(name: &str) -> (r: u64)
    ensures
        r == live_id_of(name@),
{
    live_id_from_str(name)
}

} // verus!
