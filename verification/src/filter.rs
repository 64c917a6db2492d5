use vstd::arithmetic::div_mod::{
    lemma_div_is_ordered, lemma_div_is_ordered_by_denominator, lemma_div_multiples_vanish,
    lemma_fundamental_div_mod, lemma_fundamental_div_mod_converse, lemma_hoist_over_denominator,
};
use vstd::prelude::*;

verus! {

/// Interpolation kernels selectable independently on each axis.  The three
/// 8-tap variants trade sharpness for ringing; the bilinear variant is the
/// low-complexity 2-tap alternative.  Each variant maps to a small integer
/// in `[0, 3]`.
#[derive(Clone, Copy, PartialEq, Eq, Structural, Debug)]
pub enum FilterMode {
    Regular,
    Smooth,
    Sharp,
    Bilinear,
}

/// The integer in `[0, 3]` assigned to a filter mode.
pub open spec fn spec_mode_index(m: FilterMode) -> int {
    match m {
        FilterMode::Regular => 0,
        FilterMode::Smooth => 1,
        FilterMode::Sharp => 2,
        FilterMode::Bilinear => 3,
    }
}

/// Combined table index of a filter-mode pair.  With both operands in
/// `[0, 3]` the raw sum already lies in `[0, 15]`; the reduction modulo 16 is
/// a defensive invariant kept so that any future widening of `FilterMode`
/// fails safely instead of indexing out of bounds.
pub open spec fn spec_2d_mode_idx(mode_x: FilterMode, mode_y: FilterMode) -> int {
    (spec_mode_index(mode_x) + 4 * spec_mode_index(mode_y)) % 16
}

impl FilterMode {
    /// The integer in `[0, 3]` assigned to this mode.
    pub fn as_index(self) -> (r: usize)
        ensures
            r == spec_mode_index(self),
            r <= 3,
    {
        match self {
            FilterMode::Regular => 0,
            FilterMode::Smooth => 1,
            FilterMode::Sharp => 2,
            FilterMode::Bilinear => 3,
        }
    }
}

/// Index that selects a table column for a pair of filter modes.
pub fn get_2d_mode_idx(mode_x: FilterMode, mode_y: FilterMode) -> (r: usize)
    ensures
        r == spec_2d_mode_idx(mode_x, mode_y),
        r < 16,
{
    (mode_x.as_index() + 4 * mode_y.as_index()) % 16
}

/// For every mode pair the combined index lies in `[0, 15]`.
pub proof fn lemma_mode_idx_total(mode_x: FilterMode, mode_y: FilterMode)
    ensures
        0 <= spec_2d_mode_idx(mode_x, mode_y) < 16,
{
}

/// Mathematical power of two, total on the integers.
pub open spec fn p2i(n: int) -> int
    decreases n,
{
    if n <= 0 {
        1
    } else {
        2 * p2i(n - 1)
    }
}

pub proof fn lemma_p2i_pos(n: int)
    ensures
        p2i(n) >= 1,
    decreases n,
{
    if n > 0 {
        lemma_p2i_pos(n - 1);
    }
}

pub proof fn lemma_p2i_monotone(a: int, b: int)
    requires
        a <= b,
    ensures
        p2i(a) <= p2i(b),
    decreases b - a,
{
    lemma_p2i_pos(a);
    if a < b {
        lemma_p2i_monotone(a, b - 1);
        lemma_p2i_pos(b - 1);
    }
}

pub proof fn lemma_p2i_add(a: int, b: int)
    requires
        a >= 0,
        b >= 0,
    ensures
        p2i(a + b) == p2i(a) * p2i(b),
    decreases a,
{
    if a == 0 {
    } else {
        lemma_p2i_add(a - 1, b);
        assert(2 * (p2i(a - 1) * p2i(b)) == (2 * p2i(a - 1)) * p2i(b)) by (nonlinear_arith);
    }
}

/// Rounding right shift: the codec's `(x + (1 << (n - 1))) >> n` on
/// mathematical integers (the division is a flooring one).
pub open spec fn round_shift(x: int, n: int) -> int {
    (x + p2i(n - 1)) / p2i(n)
}

/// Clamp `x` into `[lo, hi]`.
pub open spec fn clamp_val(x: int, lo: int, hi: int) -> int {
    if x < lo {
        lo
    } else if x > hi {
        hi
    } else {
        x
    }
}

pub fn clamp_i32(x: i32, lo: i32, hi: i32) -> (r: i32)
    requires
        lo <= hi,
    ensures
        r == clamp_val(x as int, lo as int, hi as int),
        lo <= r <= hi,
{
    if x < lo {
        lo
    } else if x > hi {
        hi
    } else {
        x
    }
}

/// Precision added to the intermediate prediction stage; reduced at 12-bit
/// depth so the intermediate lanes keep headroom.
pub open spec fn inter_bits(bd: int) -> int {
    if bd == 12 {
        2
    } else {
        4
    }
}

pub fn intermediate_bits(bit_depth: usize) -> (r: usize)
    ensures
        r == inter_bits(bit_depth as int),
{
    if bit_depth == 12 {
        2
    } else {
        4
    }
}

/// Magnitude of the side lobes of an 8-tap row at fractional phase `f`:
/// zero at the integer phases, largest at the half-sample phase.
pub open spec fn side_weight(f: int) -> int {
    if f <= 8 {
        f
    } else {
        16 - f
    }
}

pub proof fn lemma_mul_le(a: int, b: int, c: int)
    requires
        a <= b,
        0 <= c,
    ensures
        a * c <= b * c,
{
    assert(a * c <= b * c) by (nonlinear_arith)
        requires
            a <= b,
            0 <= c,
    ;
}

/// `|t| <= tb` and `|s| <= sb` bound the product `t * s` by `tb * sb`.
pub proof fn lemma_mul_abs_le(t: int, tb: int, s: int, sb: int)
    requires
        -tb <= t <= tb,
        -sb <= s <= sb,
        0 <= tb,
        0 <= sb,
    ensures
        -(tb * sb) <= t * s <= tb * sb,
{
    assert(-(tb * sb) <= t * s <= tb * sb) by (nonlinear_arith)
        requires
            -tb <= t <= tb,
            -sb <= s <= sb,
            0 <= tb,
            0 <= sb,
    ;
}

/// A bound on the input of a rounding shift bounds its output.
pub proof fn lemma_round_shift_bound(x: int, n: int, b: int)
    requires
        n >= 1,
        0 <= b,
        -b <= x <= b,
    ensures
        -(b / p2i(n)) - 1 <= round_shift(x, n) <= b / p2i(n) + 1,
{
    let d = p2i(n);
    let half = p2i(n - 1);
    lemma_p2i_pos(n - 1);
    assert(d == 2 * half);
    // Upper bound: x + half <= b + d, and (b + d) / d == b / d + 1.
    lemma_div_is_ordered(x + half, b + d, d);
    lemma_hoist_over_denominator(b, 1, d as nat);
    // Lower bound: x + half >= -b, and (-b) / d >= -(b / d) - 1.
    lemma_div_is_ordered(-b, x + half, d);
    lemma_fundamental_div_mod(b, d);
    let q = b / d;
    let r = b % d;
    if r == 0 {
        lemma_div_multiples_vanish(-q, d);
        assert(d * -q == -b) by (nonlinear_arith)
            requires
                b == q * d + 0,
        ;
    } else {
        assert((-q - 1) * d + (d - r) == -b) by (nonlinear_arith)
            requires
                b == d * q + r,
        ;
        lemma_fundamental_div_mod_converse(-b, d, -q - 1, d - r);
    }
}

/// Quotients do not grow when the (positive) input shrinks toward zero or
/// the divisor grows.
pub proof fn lemma_div_shrinks(a: int, d: int)
    requires
        d >= 1,
    ensures
        a >= 0 ==> 0 <= a / d <= a,
        a <= 0 ==> a <= a / d <= 0,
{
    if a >= 0 {
        lemma_div_is_ordered_by_denominator(a, 1, d);
        lemma_div_is_ordered(0, a, d);
    } else {
        assert(a * d <= a) by (nonlinear_arith)
            requires
                a <= 0,
                d >= 1,
        ;
        lemma_div_multiples_vanish(a, d);
        lemma_div_is_ordered(a * d, a, d);
        lemma_div_is_ordered(a, 0, d);
    }
}

/// Powers of two as a machine integer.
pub fn pow2_u64(n: usize) -> (r: u64)
    requires
        n <= 32,
    ensures
        r == p2i(n as int),
        1 <= r <= 0x1_0000_0000u64,
{
    proof {
        lemma_p2i_monotone(n as int, 32);
        reveal_with_fuel(p2i, 33);
        assert(p2i(32) == 0x1_0000_0000);
    }
    let mut r: u64 = 1;
    let mut i: usize = 0;
    while i < n
        invariant
            i <= n <= 32,
            r == p2i(i as int),
            p2i(n as int) <= 0x1_0000_0000,
        decreases n - i,
    {
        proof {
            lemma_p2i_monotone(i as int + 1, n as int);
        }
        r = r * 2;
        i = i + 1;
    }
    r
}

/// Executable rounding right shift, proved equal to [`round_shift`].
pub fn round_shift_i32(x: i32, n: usize) -> (r: i32)
    requires
        1 <= n <= 16,
        -0x2000_0000 <= x <= 0x2000_0000,
    ensures
        r == round_shift(x as int, n as int),
        -0x2000_0000 <= r <= 0x2000_0000,
{
    let d: u64 = pow2_u64(n);
    let half: u64 = pow2_u64(n - 1);
    let bias: u64 = pow2_u64(29);
    let scale: u64 = pow2_u64(29 - n);
    proof {
        lemma_p2i_add((29 - n) as int, n as int);
        assert(scale * d == bias);
        assert(d == 2 * half);
        lemma_p2i_monotone(n as int, 16);
        reveal_with_fuel(p2i, 18);
        assert(p2i(16) == 0x1_0000);
    }
    let s: i64 = (x as i64) + (bias as i64) + (half as i64);
    let q: u64 = (s as u64) / d;
    proof {
        lemma_hoist_over_denominator(x as int + half as int, scale as int, d as nat);
        assert(scale as int * d as int == bias as int);
        // q == (x + half) / d + scale
        lemma_round_shift_bound(x as int, n as int, 0x2000_0000);
        assert(p2i(0) == 1);
        assert(p2i(1) == 2);
        lemma_p2i_monotone(1, n as int);
        lemma_div_is_ordered_by_denominator(0x2000_0000, 2, d as int);
    }
    let r64: i64 = (q as i64) - (scale as i64);
    r64 as i32
}

} // verus!
