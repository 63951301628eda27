//! Random values drawn from `rand`.
use vstd::prelude::*;

verus! {

/// Whether `c` is an ASCII letter or digit.
pub open spec fn is_ascii_alphanumeric(c: char) -> bool {
    ('a' <= c && c <= 'z') || ('A' <= c && c <= 'Z') || ('0' <= c && c <= '9')
}

/// An `i32` drawn uniformly by a `StdRng` seeded from the operating system
/// (`StdRng::from_os_rng().sample(StandardUniform)`). Trusted, with nothing
/// stated of the value.
#[verifier::external_body]
pub(crate) fn random_i32() -> (r: i32) {
    let mut rng: rand::rngs::StdRng = rand::SeedableRng::from_os_rng();
    rand::Rng::sample(&mut rng, rand::distr::StandardUniform)
}

/// A string of `len` characters drawn from `rand::distr::Alphanumeric` with
/// the thread-local generator (`Alphanumeric.sample_string(&mut rand::rng(),
/// len)`). Trusted: rand documents the distribution as ASCII letters and
/// digits, and `sample_string` as appending `len` samples.
#[verifier::external_body]
pub(crate) fn random_alphanumeric(len: usize) -> (r: String)
    ensures
        r@.len() == len,
        forall|i: int| 0 <= i < len ==> is_ascii_alphanumeric(#[trigger] r@[i]),
{
    rand::distr::SampleString::sample_string(&rand::distr::Alphanumeric, &mut rand::rng(), len)
}

} // verus!
