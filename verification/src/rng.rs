//! Random material for the server-side ICE credentials and the SDP answer.

use vstd::prelude::*;

verus! {

/// An ASCII letter or digit, the alphabet of ICE credentials.
pub open spec fn is_alnum_char(c: char) -> bool {
    ('A' <= c && c <= 'Z') || ('a' <= c && c <= 'z') || ('0' <= c && c <= '9')
}

/// A text made of ASCII letters and digits only.
pub open spec fn alnum_seq(s: Seq<char>) -> bool {
    forall|i: int| 0 <= i < s.len() ==> is_alnum_char(#[trigger] s[i])
}

/// Relies on rand's `Alphanumeric` distribution via
/// `SampleString::sample_string`: the result holds exactly `len` characters,
/// each sampled from the ASCII letters and digits.
#[verifier::external_body]
pub fn rand_alnum_string(len: usize) -> (r: String)
    ensures
        r@.len() == len,
        forall|i: int| 0 <= i < r@.len() ==> is_alnum_char(#[trigger] r@[i]),
{
    rand::distr::SampleString::sample_string(&rand::distr::Alphanumeric, &mut rand::rng(), len)
}

/// Relies on `rand::random`: a random value, of which nothing is promised.
#[verifier::external_body]
pub fn rand_u32() -> u32 {
    rand::random::<u32>()
}

} // verus!
