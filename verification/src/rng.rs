use vstd::prelude::*;

verus! {

/// Declares rand's thread-local generator handle so a `Cpu` can own one;
/// Verus treats a value of this type as opaque.
#[verifier::external_type_specification]
#[verifier::external_body]
pub struct ExThreadRng(rand::rngs::ThreadRng);

/// Relies on rand::thread_rng: hands out a handle to the thread-local,
/// system-seeded pseudo-random generator.
#[verifier::external_body]
pub(crate) fn fresh_rng() -> rand::rngs::ThreadRng {
    rand::thread_rng()
}

/// Relies on rand::Rng::gen on ThreadRng: draws one pseudo-random byte.
/// Nothing is promised of the value drawn.
#[verifier::external_body]
pub(crate) fn random_byte(rng: &mut rand::rngs::ThreadRng) -> u8 {
    rand::Rng::gen::<u8>(rng)
}

} // verus!
