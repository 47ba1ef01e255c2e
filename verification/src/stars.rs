//! Starfield background: a deterministic position hash decides which cells
//! get a star, so the field is identical from one frame to the next.
use vstd::prelude::*;
use vstd::wrapping::u64_specs::wrapping_mul;

verus! {

/// The position hash (a splitmix64 variant over row, column and width).
pub open spec fn mix(row: u64, col: u64, cols: u64) -> u64 {
    let h0 = wrapping_mul(row, 0x9E37_79B9_7F4A_7C15u64) ^ wrapping_mul(col, 0xC2B2_AE3D_27D4_EB4Fu64)
        ^ wrapping_mul(cols, 0x1656_67B1_9E37_79F9u64);
    let h1 = h0 ^ (h0 >> 29u64);
    let h2 = wrapping_mul(h1, 0xBF58_476D_1CE4_E5B9u64);
    h2 ^ (h2 >> 32u64)
}

/// The position hash, computed.
pub fn mix_exec(row: usize, col: usize, cols: usize) -> (h: u64)
    ensures
        h == mix(row as u64, col as u64, cols as u64),
{
    let mut h = (row as u64).wrapping_mul(0x9E37_79B9_7F4A_7C15u64) ^ (col as u64).wrapping_mul(
        0xC2B2_AE3D_27D4_EB4Fu64,
    ) ^ (cols as u64).wrapping_mul(0x1656_67B1_9E37_79F9u64);
    h = h ^ (h >> 29u64);
    h = h.wrapping_mul(0xBF58_476D_1CE4_E5B9u64);
    h = h ^ (h >> 32u64);
    h
}

/// What the starfield shows at a cell: `None` = blank, `Some((char, bright))`.
pub open spec fn star_at(row: usize, col: usize, cols: usize) -> Option<(char, bool)> {
    let v = mix(row as u64, col as u64, cols as u64) % 1000;
    if v <= 1 {
        Some(('+', true))
    } else if v <= 8 {
        Some(('·', false))
    } else {
        None
    }
}

/// One background cell (narrow characters only).
pub fn cell(row: usize, col: usize, cols: usize) -> (r: Option<(char, bool)>)
    ensures
        r == star_at(row, col, cols),
{
    let h = mix_exec(row, col, cols);
    let v = h % 1000;
    if v <= 1 {
        Some(('+', true))
    } else if v <= 8 {
        Some(('·', false))
    } else {
        None
    }
}

/// Stars are drawn only with the narrow glyphs `+` (bright) and `·` (dim).
pub proof fn law_stars_use_narrow_glyphs(row: usize, col: usize, cols: usize)
    ensures
        star_at(row, col, cols) matches Some((c, bright)) ==> (bright && c == '+') || (!bright
            && c == '·'),
{
}


} // verus!
