use vstd::prelude::*;

verus! {

/// Relies on quad_rand::gen_range over i64: it draws r in [0, 1) with 32
/// random bits, computes low + (high - low) * r in f64 and truncates toward
/// zero. The bounds are kept small enough that every intermediate is exact
/// in f64 and the sum cannot round up to `high` (the largest factor is
/// (high - low) * (1 - 2^-32), a full 2^-32 of the range below `high`,
/// while an f64 ULP at a million is far smaller), so truncation lands in
/// [low, high).
#[verifier::external_body]
pub fn gen_range_i64(low: i64, high: i64) -> (r: i64)
    requires
        -1_000_000 <= low,
        high <= 1_000_000,
        low < high,
        high >= 1,
    ensures
        low <= r < high,
{
    quad_rand::gen_range(low, high)
}

} // verus!
