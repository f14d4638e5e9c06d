//! Slider attacks exposed for use outside move generation.
use vstd::prelude::*;
use crate::bits::has_bit;
use crate::state::consts::{Attacks, bishop_ray, rook_ray, spec_bishop, spec_rook};

verus! {

/// Rook attacks from square `idx` given the occupancy: every square along the
/// rook's lines up to and including the first occupied one.
pub fn rook_attacks(idx: usize, occupied: u64) -> (r: u64)
    requires
        idx < 64,
    ensures
        r == spec_rook(idx as u64, occupied),
        forall|b: u64| b < 64 ==> (has_bit(r, b) <==> rook_ray(idx as u64, b, occupied)),
{
    Attacks::rook(idx, occupied)
}

/// Bishop attacks from square `idx` given the occupancy.
pub fn bishop_attacks(idx: usize, occ: u64) -> (r: u64)
    requires
        idx < 64,
    ensures
        r == spec_bishop(idx as u64, occ),
        forall|b: u64| b < 64 ==> (has_bit(r, b) <==> bishop_ray(idx as u64, b, occ)),
{
    Attacks::bishop(idx, occ)
}

/// Squares a rook on `idx` would attack once the first `blockers` in its way
/// were removed, and not before.
pub fn xray_rook_attacks(occupied: u64, blockers: u64, idx: usize) -> (r: u64)
    requires
        idx < 64,
    ensures
        r == spec_rook(idx as u64, occupied) ^ spec_rook(
            idx as u64,
            occupied ^ (blockers & spec_rook(idx as u64, occupied)),
        ),
{
    let attacks = rook_attacks(idx, occupied);
    let blockers2 = blockers & attacks;
    attacks ^ rook_attacks(idx, occupied ^ blockers2)
}

/// Squares a bishop on `idx` would attack once the first `blockers` in its way
/// were removed, and not before.
pub fn xray_bishop_attacks(occupied: u64, blockers: u64, idx: usize) -> (r: u64)
    requires
        idx < 64,
    ensures
        r == spec_bishop(idx as u64, occupied) ^ spec_bishop(
            idx as u64,
            occupied ^ (blockers & spec_bishop(idx as u64, occupied)),
        ),
{
    let attacks = bishop_attacks(idx, occupied);
    let blockers2 = blockers & attacks;
    attacks ^ bishop_attacks(idx, occupied ^ blockers2)
}

} // verus!
