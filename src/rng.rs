//! The random-number source, kept behind bracket-lib's generator.
use vstd::prelude::*;
use bracket_lib::prelude::RandomNumberGenerator;

verus! {

#[verifier::external_type_specification]
#[verifier::external_body]
pub struct ExRandomNumberGenerator(RandomNumberGenerator);

/// Relies on `RandomNumberGenerator::range`: a draw from `lo` (inclusive) to `hi`
/// (exclusive); the underlying `gen_range` panics on an empty range.
#[verifier::external_body]
pub(crate) fn rng_range(rng: &mut RandomNumberGenerator, lo: i32, hi: i32) -> (r: i32)
    requires
        lo < hi,
    ensures
        lo <= r < hi,
{
    rng.range(lo, hi)
}

/// Relies on `RandomNumberGenerator::random_slice_index`: `None` for an empty slice,
/// otherwise an index into it (drawn through `range(1, len + 1)`, which must not overflow).
#[verifier::external_body]
pub(crate) fn rng_slice_index<T>(rng: &mut RandomNumberGenerator, v: &Vec<T>) -> (r: Option<usize>)
    requires
        v@.len() < i32::MAX,
    ensures
        v@.len() == 0 <==> r is None,
        r is Some ==> r->0 < v@.len(),
{
    rng.random_slice_index(v.as_slice())
}

} // verus!
