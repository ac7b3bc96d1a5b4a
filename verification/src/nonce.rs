//! Anti-replay token generation.
use vstd::prelude::*;

verus! {

/// True for an ASCII letter or digit.
pub open spec fn is_alphanumeric_char(c: char) -> bool {
    (48 <= (c as u32) && (c as u32) <= 57) || (65 <= (c as u32) && (c as u32) <= 90) || (97 <= (
    c as u32) && (c as u32) <= 122)
}

/// Relies on `siwe::generate_nonce`: seventeen characters sampled from the
/// alphanumeric alphabet by a cryptographically secure generator. Nothing is
/// assumed beyond the length and the alphabet; two calls may differ.
#[verifier::external_body]
fn random_alphanumeric() -> (r: String)
    ensures
        r@.len() == 17,
        forall|i: int| 0 <= i < r@.len() ==> is_alphanumeric_char(#[trigger] r@[i]),
{
    siwe::generate_nonce()
}

/// A fresh anti-replay token: at least eight alphanumeric characters drawn
/// from a cryptographically secure generator.
pub fn generate_nonce() -> (r: String)
    ensures
        r@.len() >= 8,
        forall|i: int| 0 <= i < r@.len() ==> is_alphanumeric_char(#[trigger] r@[i]),
{
    random_alphanumeric()
}

} // verus!
