use vstd::prelude::*;

verus! {

#[verifier::external_type_specification]
#[verifier::external_body]
pub struct ExStdRng(rand::rngs::StdRng);

/// The draws a seeded generator makes for the starting roles: for a
/// fixed seed and count, one fixed sequence of values below 3.
pub uninterp spec fn role_draw_seq(seed: u64, count: int) -> Seq<usize>;

/// Relies on rand::SeedableRng::seed_from_u64 and rand::Rng::gen_range:
/// StdRng is a deterministic pseudo-random generator, so the values it
/// draws below 3 are a function of the seed and the count alone; each
/// lies in the non-empty range 0..3, so no call panics.
#[verifier::external_body]
pub fn role_draws(seed: u64, count: usize) -> (r: Vec<usize>)
    ensures
        r@ == role_draw_seq(seed, count as int),
        r@.len() == count,
        forall|i: int| 0 <= i < count ==> r@[i] < 3,
{
    let mut rng = <rand::rngs::StdRng as rand::SeedableRng>::seed_from_u64(seed);
    let mut draws = Vec::with_capacity(count);
    for _ in 0..count {
        draws.push(rand::Rng::gen_range(&mut rng, 0..3));
    }
    draws
}

/// Relies on rand::Rng::gen_range over the range 0..n: the result is a
/// draw from that range, so below n; the range is non-empty, so the
/// call does not panic.
#[verifier::external_body]
pub fn draw_below(rng: &mut rand::rngs::StdRng, n: usize) -> (r: usize)
    requires
        n >= 1,
    ensures
        r < n,
{
    rand::Rng::gen_range(rng, 0..n)
}

/// Relies on rand::thread_rng and rand::Rng::gen_range over 0..n: a
/// draw from the thread's entropy source, below n; the range is
/// non-empty, so the call does not panic.
#[verifier::external_body]
pub fn random_below(n: usize) -> (r: usize)
    requires
        n >= 1,
    ensures
        r < n,
{
    rand::Rng::gen_range(&mut rand::thread_rng(), 0..n)
}

} // verus!
