//! Quantizer: maps a continuous coordinate to an integer grid-cell index
//! given a cell size, rounding half away from zero.

use vstd::prelude::*;

verus! {

/// Cell sizes below one length unit are clamped to one.
pub open spec fn effective_grid(g: int) -> int {
    if g < 1 {
        1
    } else {
        g
    }
}

/// Mathematical round-half-away-from-zero of `v / g`, for `g >= 1`.
pub open spec fn round_div(v: int, g: int) -> int
    recommends
        g >= 1,
{
    if v >= 0 {
        (2 * v + g) / (2 * g)
    } else {
        -((2 * (-v) + g) / (2 * g))
    }
}

/// The quantized coordinate never exceeds the continuous one in magnitude.
pub proof fn lemma_round_div_bound(v: int, g: int)
    requires
        g >= 1,
        v >= 0,
    ensures
        0 <= round_div(v, g) <= v,
{
    let q = (2 * v + g) / (2 * g);
    vstd::arithmetic::div_mod::lemma_fundamental_div_mod(2 * v + g, 2 * g);
    let r = (2 * v + g) % (2 * g);
    vstd::arithmetic::div_mod::lemma_mod_bound(2 * v + g, 2 * g);
    assert(2 * v + g == 2 * g * q + r);
    assert(0 <= r < 2 * g);
    assert(q >= 0) by (nonlinear_arith)
        requires
            2 * v + g == 2 * g * q + r,
            0 <= r < 2 * g,
            v >= 0,
            g >= 1,
    ;
    assert(q <= v) by (nonlinear_arith)
        requires
            2 * v + g == 2 * g * q + r,
            0 <= r < 2 * g,
            v >= 0,
            g >= 1,
    ;
}

/// Quantize a continuous coordinate `v` to a cell index with cell size
/// `grid` (clamped to at least one unit per cell).
pub fn round_cell(v: i64, grid: u32) -> (r: i64)
    ensures
        r == round_div(v as int, effective_grid(grid as int)),
        v >= 0 ==> 0 <= r <= v,
        v < 0 ==> v <= r <= 0,
{
    let g: u128 = if grid < 1 {
        1
    } else {
        grid as u128
    };
    assert(g == effective_grid(grid as int));
    if v >= 0 {
        let av: u128 = v as u128;
        let q: u128 = (2 * av + g) / (2 * g);
        proof {
            lemma_round_div_bound(v as int, g as int);
        }
        q as i64
    } else {
        let av: u128 = (-(v as i128)) as u128;
        assert(av == -(v as int));
        let q: u128 = (2 * av + g) / (2 * g);
        proof {
            lemma_round_div_bound(av as int, g as int);
        }
        (-(q as i128)) as i64
    }
}

} // verus!
