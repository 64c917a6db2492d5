use crate::cpu::CpuFeatureLevel;
use crate::filter::{
    clamp_i32, clamp_val, inter_bits, intermediate_bits, lemma_mul_abs_le, lemma_mul_le,
    lemma_round_shift_bound, p2i, round_shift, round_shift_i32, side_weight, FilterMode,
};
use crate::pixel::Pixel;
use crate::plane::{dst_geom_ok, samples_max_ok, src_geom_ok, PlaneRegionMut, PlaneSlice};
use vstd::arithmetic::div_mod::lemma_fundamental_div_mod_converse;
use vstd::prelude::*;

verus! {

/// Sample bit depths the codec supports.
pub open spec fn depth_ok(bd: int) -> bool {
    bd == 8 || bd == 10 || bd == 12
}

/// Horizontal filter pass at block-relative row `rr`, column `c`.  Each mode
/// weights the two samples bracketing the fractional position `cf` (in
/// sixteenths) with `8 * (16 - cf)` and `8 * cf`, and adds side lobes of
/// magnitude `side_weight(cf)`: negative near lobes for `Regular`, positive
/// near lobes for `Smooth`, negative far lobes for `Sharp`, none for
/// `Bilinear`.  Every row of coefficients sums to 128 and phase 0 is the
/// identity row.
pub open spec fn spec_hsum<T: Pixel>(
    src: PlaneSlice<T>,
    mode_x: FilterMode,
    cf: int,
    rr: int,
    c: int,
) -> int {
    let w = side_weight(cf);
    match mode_x {
        FilterMode::Regular => (8 * (16 - cf) + w) * src.at(rr, c) + (8 * cf + w) * src.at(
            rr,
            c + 1,
        ) - w * src.at(rr, c - 2) - w * src.at(rr, c + 3),
        FilterMode::Smooth => (8 * (16 - cf) - w) * src.at(rr, c) + (8 * cf - w) * src.at(
            rr,
            c + 1,
        ) + w * src.at(rr, c - 2) + w * src.at(rr, c + 3),
        FilterMode::Sharp => (8 * (16 - cf) + w) * src.at(rr, c) + (8 * cf + w) * src.at(
            rr,
            c + 1,
        ) - w * src.at(rr, c - 3) - w * src.at(rr, c + 4),
        FilterMode::Bilinear => (8 * (16 - cf)) * src.at(rr, c) + (8 * cf) * src.at(rr, c + 1),
    }
}

/// Intermediate (horizontally filtered) value, kept at `inter_bits` extra
/// precision.
pub open spec fn spec_mid<T: Pixel>(
    src: PlaneSlice<T>,
    mode_x: FilterMode,
    cf: int,
    bd: int,
    rr: int,
    c: int,
) -> int {
    round_shift(spec_hsum(src, mode_x, cf, rr, c), 7 - inter_bits(bd))
}

/// Vertical filter pass over the intermediate values above and below row
/// `r`, with the same per-mode coefficient rows as [`spec_hsum`].
pub open spec fn spec_vsum<T: Pixel>(
    src: PlaneSlice<T>,
    mode_x: FilterMode,
    cf: int,
    mode_y: FilterMode,
    rf: int,
    bd: int,
    r: int,
    c: int,
) -> int {
    let w = side_weight(rf);
    match mode_y {
        FilterMode::Regular => (8 * (16 - rf) + w) * spec_mid(src, mode_x, cf, bd, r, c) + (8 * rf
            + w) * spec_mid(src, mode_x, cf, bd, r + 1, c) - w * spec_mid(
            src,
            mode_x,
            cf,
            bd,
            r - 2,
            c,
        ) - w * spec_mid(src, mode_x, cf, bd, r + 3, c),
        FilterMode::Smooth => (8 * (16 - rf) - w) * spec_mid(src, mode_x, cf, bd, r, c) + (8 * rf
            - w) * spec_mid(src, mode_x, cf, bd, r + 1, c) + w * spec_mid(
            src,
            mode_x,
            cf,
            bd,
            r - 2,
            c,
        ) + w * spec_mid(src, mode_x, cf, bd, r + 3, c),
        FilterMode::Sharp => (8 * (16 - rf) + w) * spec_mid(src, mode_x, cf, bd, r, c) + (8 * rf
            + w) * spec_mid(src, mode_x, cf, bd, r + 1, c) - w * spec_mid(
            src,
            mode_x,
            cf,
            bd,
            r - 3,
            c,
        ) - w * spec_mid(src, mode_x, cf, bd, r + 4, c),
        FilterMode::Bilinear => (8 * (16 - rf)) * spec_mid(src, mode_x, cf, bd, r, c) + (8 * rf)
            * spec_mid(src, mode_x, cf, bd, r + 1, c),
    }
}

/// Final interpolated sample written by `put_8tap`: the vertical pass,
/// rounded back to sample precision and clamped to the depth's range.
pub open spec fn spec_put_pixel<T: Pixel>(
    src: PlaneSlice<T>,
    mode_x: FilterMode,
    cf: int,
    mode_y: FilterMode,
    rf: int,
    bd: int,
    r: int,
    c: int,
) -> int {
    clamp_val(
        round_shift(spec_vsum(src, mode_x, cf, mode_y, rf, bd, r, c), 7 + inter_bits(bd)),
        0,
        p2i(bd) - 1,
    )
}

/// Intermediate prediction lane written by `prep_8tap`: the vertical pass at
/// `inter_bits` extra precision, not clamped.
pub open spec fn spec_prep_val<T: Pixel>(
    src: PlaneSlice<T>,
    mode_x: FilterMode,
    cf: int,
    mode_y: FilterMode,
    rf: int,
    bd: int,
    r: int,
    c: int,
) -> int {
    round_shift(spec_vsum(src, mode_x, cf, mode_y, rf, bd, r, c), 7)
}

/// Bi-prediction average of two intermediate lanes, rounded back to sample
/// precision and clamped to the depth's range.
pub open spec fn spec_avg_val(t1: int, t2: int, bd: int) -> int {
    clamp_val(round_shift(t1 + t2, inter_bits(bd) + 1), 0, p2i(bd) - 1)
}

/// Largest sample value at a bit depth: `2^bd - 1`, written out per
/// supported depth so that callers need not unfold the power function.
pub open spec fn spec_max_sample(bd: int) -> int {
    if bd == 12 {
        4095
    } else if bd == 10 {
        1023
    } else {
        255
    }
}

/// The per-depth table above agrees with `2^bd - 1`.
pub proof fn lemma_max_sample_value(bd: int)
    requires
        depth_ok(bd),
    ensures
        spec_max_sample(bd) == p2i(bd) - 1,
{
    reveal_with_fuel(p2i, 14);
}

/// Largest sample value at a bit depth.
pub fn max_sample_val(bit_depth: usize) -> (r: i32)
    requires
        depth_ok(bit_depth as int),
    ensures
        r == p2i(bit_depth as int) - 1,
        r == spec_max_sample(bit_depth as int),
        255 <= r <= 4095,
{
    proof {
        reveal_with_fuel(p2i, 14);
    }
    if bit_depth == 8 {
        255
    } else if bit_depth == 10 {
        1023
    } else {
        4095
    }
}

/// A block index `r * stride + c` decomposes uniquely.
proof fn lemma_rc_index(r: int, c: int, stride: int)
    requires
        0 <= r,
        0 <= c < stride,
    ensures
        (r * stride + c) / stride == r,
        (r * stride + c) % stride == c,
{
    lemma_fundamental_div_mod_converse(r * stride + c, stride, r, c);
}

/// `cap` rows of `stride` cells fit in `len` cells, so `cap <= len`.
pub proof fn lemma_cap_le_len(cap: int, stride: int, len: int)
    requires
        1 <= stride,
        0 <= cap,
        cap * stride <= len,
    ensures
        cap <= len,
{
    lemma_mul_le(1, stride, cap);
    assert(1 * cap == cap && stride * cap == cap * stride) by (nonlinear_arith);
}

/// A row strictly below `cap` starts at least one full stride before `len`.
pub proof fn lemma_row_base(row: int, cap: int, stride: int, len: int)
    requires
        0 <= row,
        row + 1 <= cap,
        cap * stride <= len,
        0 <= stride,
    ensures
        row * stride + stride <= len,
{
    lemma_mul_le(row + 1, cap, stride);
    assert((row + 1) * stride == row * stride + stride) by (nonlinear_arith);
}

/// Executable horizontal pass: the intermediate value for block-relative row
/// `rr - 3` and column `c`.
#[verifier::rlimit(100)]
fn hmid<T: Pixel>(
    src: &PlaneSlice<T>,
    mode_x: FilterMode,
    col_frac: i32,
    bit_depth: usize,
    smax: i32,
    rr: usize,
    c: usize,
    width: usize,
    height: usize,
) -> (v: i32)
    requires
        src_geom_ok(*src, width as int, height as int),
        samples_max_ok(*src, smax as int),
        depth_ok(bit_depth as int),
        smax == p2i(bit_depth as int) - 1,
        0 <= col_frac < 16,
        c < width,
        rr < height + 7,
    ensures
        v == spec_mid(
            *src,
            mode_x,
            col_frac as int,
            bit_depth as int,
            rr as int - 3,
            c as int,
        ),
        -20476 <= v <= 20476,
{
    proof {
        reveal_with_fuel(p2i, 14);
        assert(p2i(3) == 8 && p2i(5) == 32);
        assert(p2i(8) == 256 && p2i(10) == 1024 && p2i(12) == 4096);
        lemma_cap_le_len(
            src.y + height + 4,
            src.stride as int,
            src.data.len() as int,
        );
        lemma_row_base(
            src.y + rr - 3,
            src.y + height + 4,
            src.stride as int,
            src.data.len() as int,
        );
    }
    let row = src.y + rr - 3;
    let base = row * src.stride;
    let i0 = base + (src.x + c) - 3;
    let s0 = src.data[i0].to_i32();
    let s1 = src.data[i0 + 1].to_i32();
    let s2 = src.data[i0 + 2].to_i32();
    let s3 = src.data[i0 + 3].to_i32();
    let s4 = src.data[i0 + 4].to_i32();
    let s5 = src.data[i0 + 5].to_i32();
    let s6 = src.data[i0 + 6].to_i32();
    let s7 = src.data[i0 + 7].to_i32();
    proof {
        assert(s0 == src.at(rr as int - 3, c as int - 3));
        assert(s1 == src.at(rr as int - 3, c as int - 2));
        assert(s2 == src.at(rr as int - 3, c as int - 1));
        assert(s3 == src.at(rr as int - 3, c as int));
        assert(s4 == src.at(rr as int - 3, c as int + 1));
        assert(s5 == src.at(rr as int - 3, c as int + 2));
        assert(s6 == src.at(rr as int - 3, c as int + 3));
        assert(s7 == src.at(rr as int - 3, c as int + 4));
    }
    let f = col_frac;
    let m = if f <= 8 {
        f
    } else {
        16 - f
    };
    let hs: i32 = match mode_x {
        FilterMode::Regular => {
            let t3 = 8 * (16 - f) + m;
            let t4 = 8 * f + m;
            proof {
                lemma_mul_abs_le(t3 as int, 136, s3 as int, smax as int);
                lemma_mul_abs_le(t4 as int, 136, s4 as int, smax as int);
                lemma_mul_abs_le(m as int, 8, s1 as int, smax as int);
                lemma_mul_abs_le(m as int, 8, s6 as int, smax as int);
            }
            let hv = t3 * s3 + t4 * s4 - m * s1 - m * s6;
            proof {
                assert(-(160 * smax) <= hv <= 160 * smax) by (nonlinear_arith)
                    requires
                        hv == t3 * s3 + t4 * s4 - m * s1 - m * s6,
                        t3 == 8 * (16 - f) + m,
                        t4 == 8 * f + m,
                        0 <= f < 16,
                        0 <= m <= 8,
                        0 <= s1 <= smax,
                        0 <= s3 <= smax,
                        0 <= s4 <= smax,
                        0 <= s6 <= smax,
                        0 <= smax,
                ;
            }
            hv
        },
        FilterMode::Smooth => {
            let t3 = 8 * (16 - f) - m;
            let t4 = 8 * f - m;
            proof {
                lemma_mul_abs_le(t3 as int, 128, s3 as int, smax as int);
                lemma_mul_abs_le(t4 as int, 128, s4 as int, smax as int);
                lemma_mul_abs_le(m as int, 8, s1 as int, smax as int);
                lemma_mul_abs_le(m as int, 8, s6 as int, smax as int);
            }
            let hv = t3 * s3 + t4 * s4 + m * s1 + m * s6;
            proof {
                assert(-(160 * smax) <= hv <= 160 * smax) by (nonlinear_arith)
                    requires
                        hv == t3 * s3 + t4 * s4 + m * s1 + m * s6,
                        t3 == 8 * (16 - f) - m,
                        t4 == 8 * f - m,
                        0 <= f < 16,
                        0 <= m <= 8,
                        0 <= s1 <= smax,
                        0 <= s3 <= smax,
                        0 <= s4 <= smax,
                        0 <= s6 <= smax,
                        0 <= smax,
                ;
            }
            hv
        },
        FilterMode::Sharp => {
            let t3 = 8 * (16 - f) + m;
            let t4 = 8 * f + m;
            proof {
                lemma_mul_abs_le(t3 as int, 136, s3 as int, smax as int);
                lemma_mul_abs_le(t4 as int, 136, s4 as int, smax as int);
                lemma_mul_abs_le(m as int, 8, s0 as int, smax as int);
                lemma_mul_abs_le(m as int, 8, s7 as int, smax as int);
            }
            let hv = t3 * s3 + t4 * s4 - m * s0 - m * s7;
            proof {
                assert(-(160 * smax) <= hv <= 160 * smax) by (nonlinear_arith)
                    requires
                        hv == t3 * s3 + t4 * s4 - m * s0 - m * s7,
                        t3 == 8 * (16 - f) + m,
                        t4 == 8 * f + m,
                        0 <= f < 16,
                        0 <= m <= 8,
                        0 <= s0 <= smax,
                        0 <= s3 <= smax,
                        0 <= s4 <= smax,
                        0 <= s7 <= smax,
                        0 <= smax,
                ;
            }
            hv
        },
        FilterMode::Bilinear => {
            let t3 = 8 * (16 - f);
            let t4 = 8 * f;
            proof {
                lemma_mul_abs_le(t3 as int, 128, s3 as int, smax as int);
                lemma_mul_abs_le(t4 as int, 128, s4 as int, smax as int);
            }
            let hv = t3 * s3 + t4 * s4;
            proof {
                assert(-(160 * smax) <= hv <= 160 * smax) by (nonlinear_arith)
                    requires
                        hv == t3 * s3 + t4 * s4,
                        t3 == 8 * (16 - f),
                        t4 == 8 * f,
                        0 <= f < 16,
                        0 <= s3 <= smax,
                        0 <= s4 <= smax,
                        0 <= smax,
                ;
            }
            hv
        },
    };
    proof {
        match mode_x {
            FilterMode::Regular => {
                assert(hs == spec_hsum(*src, mode_x, col_frac as int, rr as int - 3, c as int));
            },
            FilterMode::Smooth => {
                assert(hs == spec_hsum(*src, mode_x, col_frac as int, rr as int - 3, c as int));
            },
            FilterMode::Sharp => {
                assert(hs == spec_hsum(*src, mode_x, col_frac as int, rr as int - 3, c as int));
            },
            FilterMode::Bilinear => {
                assert(hs == spec_hsum(*src, mode_x, col_frac as int, rr as int - 3, c as int));
            },
        }
    }
    let ibits = intermediate_bits(bit_depth);
    let v = round_shift_i32(hs, 7 - ibits);
    proof {
        lemma_round_shift_bound(hs as int, 7 - ibits as int, 160 * smax as int);
        if bit_depth == 12 {
            assert(160 * smax as int == 655200);
            assert(655200int / 32 == 20475);
        } else if bit_depth == 10 {
            assert(160 * smax as int == 163680);
            assert(163680int / 8 == 20460);
        } else {
            assert(160 * smax as int == 40800);
            assert(40800int / 8 == 5100);
        }
    }
    v
}

/// Executable vertical pass at block position `(r, c)`.
#[verifier::rlimit(100)]
pub(crate) fn vsum_val<T: Pixel>(
    src: &PlaneSlice<T>,
    mode_x: FilterMode,
    col_frac: i32,
    mode_y: FilterMode,
    row_frac: i32,
    bit_depth: usize,
    smax: i32,
    r: usize,
    c: usize,
    width: usize,
    height: usize,
) -> (v: i32)
    requires
        src_geom_ok(*src, width as int, height as int),
        samples_max_ok(*src, smax as int),
        depth_ok(bit_depth as int),
        smax == p2i(bit_depth as int) - 1,
        0 <= col_frac < 16,
        0 <= row_frac < 16,
        c < width,
        r < height,
    ensures
        v == spec_vsum(
            *src,
            mode_x,
            col_frac as int,
            mode_y,
            row_frac as int,
            bit_depth as int,
            r as int,
            c as int,
        ),
        -3276160 <= v <= 3276160,
{
    proof {
        lemma_cap_le_len(
            src.y + height + 4,
            src.stride as int,
            src.data.len() as int,
        );
    }
    let m0 = hmid(src, mode_x, col_frac, bit_depth, smax, r, c, width, height);
    let m1 = hmid(src, mode_x, col_frac, bit_depth, smax, r + 1, c, width, height);
    let m2 = hmid(src, mode_x, col_frac, bit_depth, smax, r + 2, c, width, height);
    let m3 = hmid(src, mode_x, col_frac, bit_depth, smax, r + 3, c, width, height);
    let m4 = hmid(src, mode_x, col_frac, bit_depth, smax, r + 4, c, width, height);
    let m5 = hmid(src, mode_x, col_frac, bit_depth, smax, r + 5, c, width, height);
    let m6 = hmid(src, mode_x, col_frac, bit_depth, smax, r + 6, c, width, height);
    let m7 = hmid(src, mode_x, col_frac, bit_depth, smax, r + 7, c, width, height);
    let f = row_frac;
    let m = if f <= 8 {
        f
    } else {
        16 - f
    };
    let vs: i32 = match mode_y {
        FilterMode::Regular => {
            let t3 = 8 * (16 - f) + m;
            let t4 = 8 * f + m;
            proof {
                lemma_mul_abs_le(t3 as int, 136, m3 as int, 20476);
                lemma_mul_abs_le(t4 as int, 136, m4 as int, 20476);
                lemma_mul_abs_le(m as int, 8, m1 as int, 20476);
                lemma_mul_abs_le(m as int, 8, m6 as int, 20476);
            }
            let vv = t3 * m3 + t4 * m4 - m * m1 - m * m6;
            proof {
                assert(-3276160 <= vv <= 3276160) by (nonlinear_arith)
                    requires
                        vv == t3 * m3 + t4 * m4 - m * m1 - m * m6,
                        t3 == 8 * (16 - f) + m,
                        t4 == 8 * f + m,
                        0 <= f < 16,
                        0 <= m <= 8,
                        -20476 <= m1 <= 20476,
                        -20476 <= m3 <= 20476,
                        -20476 <= m4 <= 20476,
                        -20476 <= m6 <= 20476,
                ;
            }
            vv
        },
        FilterMode::Smooth => {
            let t3 = 8 * (16 - f) - m;
            let t4 = 8 * f - m;
            proof {
                lemma_mul_abs_le(t3 as int, 128, m3 as int, 20476);
                lemma_mul_abs_le(t4 as int, 128, m4 as int, 20476);
                lemma_mul_abs_le(m as int, 8, m1 as int, 20476);
                lemma_mul_abs_le(m as int, 8, m6 as int, 20476);
            }
            let vv = t3 * m3 + t4 * m4 + m * m1 + m * m6;
            proof {
                assert(-3276160 <= vv <= 3276160) by (nonlinear_arith)
                    requires
                        vv == t3 * m3 + t4 * m4 + m * m1 + m * m6,
                        t3 == 8 * (16 - f) - m,
                        t4 == 8 * f - m,
                        0 <= f < 16,
                        0 <= m <= 8,
                        -20476 <= m1 <= 20476,
                        -20476 <= m3 <= 20476,
                        -20476 <= m4 <= 20476,
                        -20476 <= m6 <= 20476,
                ;
            }
            vv
        },
        FilterMode::Sharp => {
            let t3 = 8 * (16 - f) + m;
            let t4 = 8 * f + m;
            proof {
                lemma_mul_abs_le(t3 as int, 136, m3 as int, 20476);
                lemma_mul_abs_le(t4 as int, 136, m4 as int, 20476);
                lemma_mul_abs_le(m as int, 8, m0 as int, 20476);
                lemma_mul_abs_le(m as int, 8, m7 as int, 20476);
            }
            let vv = t3 * m3 + t4 * m4 - m * m0 - m * m7;
            proof {
                assert(-3276160 <= vv <= 3276160) by (nonlinear_arith)
                    requires
                        vv == t3 * m3 + t4 * m4 - m * m0 - m * m7,
                        t3 == 8 * (16 - f) + m,
                        t4 == 8 * f + m,
                        0 <= f < 16,
                        0 <= m <= 8,
                        -20476 <= m0 <= 20476,
                        -20476 <= m3 <= 20476,
                        -20476 <= m4 <= 20476,
                        -20476 <= m7 <= 20476,
                ;
            }
            vv
        },
        FilterMode::Bilinear => {
            let t3 = 8 * (16 - f);
            let t4 = 8 * f;
            proof {
                lemma_mul_abs_le(t3 as int, 128, m3 as int, 20476);
                lemma_mul_abs_le(t4 as int, 128, m4 as int, 20476);
            }
            let vv = t3 * m3 + t4 * m4;
            proof {
                assert(-3276160 <= vv <= 3276160) by (nonlinear_arith)
                    requires
                        vv == t3 * m3 + t4 * m4,
                        t3 == 8 * (16 - f),
                        t4 == 8 * f,
                        0 <= f < 16,
                        -20476 <= m3 <= 20476,
                        -20476 <= m4 <= 20476,
                ;
            }
            vv
        },
    };
    proof {
        match mode_y {
            FilterMode::Regular => {
                assert(vs == spec_vsum(
                    *src,
                    mode_x,
                    col_frac as int,
                    mode_y,
                    row_frac as int,
                    bit_depth as int,
                    r as int,
                    c as int,
                ));
            },
            FilterMode::Smooth => {
                assert(vs == spec_vsum(
                    *src,
                    mode_x,
                    col_frac as int,
                    mode_y,
                    row_frac as int,
                    bit_depth as int,
                    r as int,
                    c as int,
                ));
            },
            FilterMode::Sharp => {
                assert(vs == spec_vsum(
                    *src,
                    mode_x,
                    col_frac as int,
                    mode_y,
                    row_frac as int,
                    bit_depth as int,
                    r as int,
                    c as int,
                ));
            },
            FilterMode::Bilinear => {
                assert(vs == spec_vsum(
                    *src,
                    mode_x,
                    col_frac as int,
                    mode_y,
                    row_frac as int,
                    bit_depth as int,
                    r as int,
                    c as int,
                ));
            },
        }
    }
    vs
}

/// Portable interpolation of a `width` x `height` block of `src` at
/// fractional offset `(col_frac, row_frac)` in sixteenths, using `mode_x`
/// horizontally and `mode_y` vertically.  This is the reference path of the
/// dispatch operation: its result does not depend on the capability level,
/// and it is the observable behaviour every installed vector kernel is held
/// to.
#[verifier::loop_isolation(false)]
#[verifier::rlimit(100)]
pub fn put_8tap<T: Pixel>(
    dst: &mut PlaneRegionMut<T>,
    src: &PlaneSlice<T>,
    width: usize,
    height: usize,
    col_frac: i32,
    row_frac: i32,
    mode_x: FilterMode,
    mode_y: FilterMode,
    bit_depth: usize,
    _cpu: CpuFeatureLevel,
)
    requires
        src_geom_ok(*src, width as int, height as int),
        dst_geom_ok(*old(dst), width as int, height as int),
        depth_ok(bit_depth as int),
        samples_max_ok(*src, spec_max_sample(bit_depth as int)),
        spec_max_sample(bit_depth as int) <= T::spec_cell_max(),
        0 <= col_frac < 16,
        0 <= row_frac < 16,
    ensures
        final(dst).stride == old(dst).stride,
        final(dst).data.len() == old(dst).data.len(),
        forall|r: int, c: int|
            0 <= r < height && 0 <= c < width ==> final(dst).at(r, c) == #[trigger] spec_put_pixel(
                *src,
                mode_x,
                col_frac as int,
                mode_y,
                row_frac as int,
                bit_depth as int,
                r,
                c,
            ),
        forall|i: int|
            0 <= i < old(dst).data.len() && !(i / (old(dst).stride as int) < height && i % (
            old(dst).stride as int) < width) ==> final(dst).data@[i] == old(dst).data@[i],
{
    let smax = max_sample_val(bit_depth);
    let ibits = intermediate_bits(bit_depth);
    let mut r: usize = 0;
    while r < height
        invariant
            r <= height,
            dst.stride == old(dst).stride,
            dst.data.len() == old(dst).data.len(),
            forall|r2: int, c2: int|
                0 <= r2 < r && 0 <= c2 < width ==> dst.at(r2, c2) == #[trigger] spec_put_pixel(
                    *src,
                    mode_x,
                    col_frac as int,
                    mode_y,
                    row_frac as int,
                    bit_depth as int,
                    r2,
                    c2,
                ),
            forall|i: int|
                0 <= i < dst.data.len() && !(i / (dst.stride as int) < r && i % (
                dst.stride as int) < width) ==> dst.data@[i] == old(dst).data@[i],
        decreases height - r,
    {
        let mut c: usize = 0;
        while c < width
            invariant
                c <= width,
                r < height,
                dst.stride == old(dst).stride,
                dst.data.len() == old(dst).data.len(),
                forall|r2: int, c2: int|
                    0 <= r2 < height && 0 <= c2 < width && (r2 < r || (r2 == r && c2 < c))
                        ==> dst.at(r2, c2) == #[trigger] spec_put_pixel(
                        *src,
                        mode_x,
                        col_frac as int,
                        mode_y,
                        row_frac as int,
                        bit_depth as int,
                        r2,
                        c2,
                    ),
                forall|i: int|
                    0 <= i < dst.data.len() && !((i / (dst.stride as int) < r || (i / (
                    dst.stride as int) == r && i % (dst.stride as int) < c)) && i % (
                    dst.stride as int) < width) ==> dst.data@[i] == old(dst).data@[i],
            decreases width - c,
        {
            let v = vsum_val(
                src,
                mode_x,
                col_frac,
                mode_y,
                row_frac,
                bit_depth,
                smax,
                r,
                c,
                width,
                height,
            );
            let pv = round_shift_i32(v, 7 + ibits);
            let px_val = clamp_i32(pv, 0, smax);
            let px = T::from_i32(px_val);
            proof {
                lemma_row_base(r as int, height as int, dst.stride as int, dst.data.len() as int);
            }
            let idx = r * dst.stride + c;
            let ghost pre = *dst;
            dst.data.set(idx, px);
            proof {
                lemma_rc_index(r as int, c as int, dst.stride as int);
                assert(dst.data@ == pre.data@.update(idx as int, px));
                assert forall|r2: int, c2: int|
                    0 <= r2 < height && 0 <= c2 < width && (r2 < r || (r2 == r && c2 < c
                        + 1)) implies dst.at(r2, c2) == #[trigger] spec_put_pixel(
                    *src,
                    mode_x,
                    col_frac as int,
                    mode_y,
                    row_frac as int,
                    bit_depth as int,
                    r2,
                    c2,
                ) by {
                    lemma_rc_index(r2, c2, dst.stride as int);
                    lemma_row_base(r2, height as int, dst.stride as int, dst.data.len() as int);
                }
            }
            c = c + 1;
        }
        r = r + 1;
    }
}

/// Portable production of the intermediate prediction buffer consumed by
/// [`mc_avg`]: the same interpolation as [`put_8tap`], kept at `inter_bits`
/// extra precision in 16-bit lanes, written row-major into `tmp`.
#[verifier::loop_isolation(false)]
#[verifier::rlimit(100)]
pub fn prep_8tap<T: Pixel>(
    tmp: &mut Vec<i16>,
    src: &PlaneSlice<T>,
    width: usize,
    height: usize,
    col_frac: i32,
    row_frac: i32,
    mode_x: FilterMode,
    mode_y: FilterMode,
    bit_depth: usize,
    _cpu: CpuFeatureLevel,
)
    requires
        src_geom_ok(*src, width as int, height as int),
        depth_ok(bit_depth as int),
        samples_max_ok(*src, spec_max_sample(bit_depth as int)),
        0 <= col_frac < 16,
        0 <= row_frac < 16,
        old(tmp).len() >= width * height,
    ensures
        final(tmp).len() == old(tmp).len(),
        forall|r: int, c: int|
            0 <= r < height && 0 <= c < width ==> final(tmp)@[r * width + c] as int
                == spec_prep_val(
                *src,
                mode_x,
                col_frac as int,
                mode_y,
                row_frac as int,
                bit_depth as int,
                r,
                c,
            ),
        forall|i: int| width * height <= i < old(tmp).len() ==> final(tmp)@[i] == old(tmp)@[i],
{
    let smax = max_sample_val(bit_depth);
    proof {
        reveal_with_fuel(p2i, 9);
        assert(p2i(7) == 128);
        assert((width * height) as int == (height as int) * (width as int)) by (nonlinear_arith);
    }
    let mut r: usize = 0;
    while r < height
        invariant
            r <= height,
            tmp.len() == old(tmp).len(),
            forall|r2: int, c2: int|
                0 <= r2 < r && 0 <= c2 < width ==> tmp@[r2 * width + c2] as int == spec_prep_val(
                    *src,
                    mode_x,
                    col_frac as int,
                    mode_y,
                    row_frac as int,
                    bit_depth as int,
                    r2,
                    c2,
                ),
            forall|i: int|
                0 <= i < tmp.len() && !(i < width * height && i / (width as int) < r) ==> tmp@[i]
                    == old(tmp)@[i],
        decreases height - r,
    {
        let mut c: usize = 0;
        while c < width
            invariant
                c <= width,
                r < height,
                tmp.len() == old(tmp).len(),
                forall|r2: int, c2: int|
                    0 <= r2 < height && 0 <= c2 < width && (r2 < r || (r2 == r && c2 < c))
                        ==> tmp@[r2 * width + c2] as int == spec_prep_val(
                        *src,
                        mode_x,
                        col_frac as int,
                        mode_y,
                        row_frac as int,
                        bit_depth as int,
                        r2,
                        c2,
                    ),
                forall|i: int|
                    0 <= i < tmp.len() && !(i < width * height && (i / (width as int) < r || (i / (
                    width as int) == r && i % (width as int) < c))) ==> tmp@[i] == old(tmp)@[i],
            decreases width - c,
        {
            let v = vsum_val(
                src,
                mode_x,
                col_frac,
                mode_y,
                row_frac,
                bit_depth,
                smax,
                r,
                c,
                width,
                height,
            );
            let t = round_shift_i32(v, 7);
            proof {
                lemma_round_shift_bound(v as int, 7, 3276160);
                assert(3276160int / 128 == 25595);
                lemma_row_base(r as int, height as int, width as int, (width * height) as int);
            }
            let t16: i16 = t as i16;
            let idx = r * width + c;
            tmp.set(idx, t16);
            proof {
                lemma_rc_index(r as int, c as int, width as int);
                assert forall|r2: int, c2: int|
                    0 <= r2 < height && 0 <= c2 < width && (r2 < r || (r2 == r && c2 < c
                        + 1)) implies tmp@[r2 * width + c2] as int == spec_prep_val(
                    *src,
                    mode_x,
                    col_frac as int,
                    mode_y,
                    row_frac as int,
                    bit_depth as int,
                    r2,
                    c2,
                ) by {
                    lemma_rc_index(r2, c2, width as int);
                    lemma_row_base(r2, height as int, width as int, (width * height) as int);
                }
            }
            c = c + 1;
        }
        r = r + 1;
    }
}

/// Portable bi-prediction average: combines two intermediate buffers
/// produced by [`prep_8tap`] into final samples, with the rounding and
/// clamping appropriate to `bit_depth`.  Every written sample lies in
/// `[0, 2^bit_depth - 1]` whatever the buffers hold.
#[verifier::loop_isolation(false)]
#[verifier::rlimit(100)]
pub fn mc_avg<T: Pixel>(
    dst: &mut PlaneRegionMut<T>,
    tmp1: &Vec<i16>,
    tmp2: &Vec<i16>,
    width: usize,
    height: usize,
    bit_depth: usize,
    _cpu: CpuFeatureLevel,
)
    requires
        dst_geom_ok(*old(dst), width as int, height as int),
        depth_ok(bit_depth as int),
        spec_max_sample(bit_depth as int) <= T::spec_cell_max(),
        tmp1.len() >= width * height,
        tmp2.len() >= width * height,
    ensures
        final(dst).stride == old(dst).stride,
        final(dst).data.len() == old(dst).data.len(),
        forall|r: int, c: int|
            0 <= r < height && 0 <= c < width ==> final(dst).at(r, c) == #[trigger] spec_avg_val(
                tmp1@[r * width + c] as int,
                tmp2@[r * width + c] as int,
                bit_depth as int,
            ),
        forall|r: int, c: int|
            0 <= r < height && 0 <= c < width ==> 0 <= #[trigger] final(dst).at(r, c)
                <= spec_max_sample(bit_depth as int),
        forall|i: int|
            0 <= i < old(dst).data.len() && !(i / (old(dst).stride as int) < height && i % (
            old(dst).stride as int) < width) ==> final(dst).data@[i] == old(dst).data@[i],
{
    let smax = max_sample_val(bit_depth);
    let ibits = intermediate_bits(bit_depth);
    proof {
        assert((width * height) as int == (height as int) * (width as int)) by (nonlinear_arith);
    }
    let mut r: usize = 0;
    while r < height
        invariant
            r <= height,
            dst.stride == old(dst).stride,
            dst.data.len() == old(dst).data.len(),
            forall|r2: int, c2: int|
                0 <= r2 < r && 0 <= c2 < width ==> dst.at(r2, c2) == #[trigger] spec_avg_val(
                    tmp1@[r2 * width + c2] as int,
                    tmp2@[r2 * width + c2] as int,
                    bit_depth as int,
                ),
            forall|i: int|
                0 <= i < dst.data.len() && !(i / (dst.stride as int) < r && i % (
                dst.stride as int) < width) ==> dst.data@[i] == old(dst).data@[i],
        decreases height - r,
    {
        let mut c: usize = 0;
        while c < width
            invariant
                c <= width,
                r < height,
                dst.stride == old(dst).stride,
                dst.data.len() == old(dst).data.len(),
                forall|r2: int, c2: int|
                    0 <= r2 < height && 0 <= c2 < width && (r2 < r || (r2 == r && c2 < c))
                        ==> dst.at(r2, c2) == #[trigger] spec_avg_val(
                        tmp1@[r2 * width + c2] as int,
                        tmp2@[r2 * width + c2] as int,
                        bit_depth as int,
                    ),
                forall|i: int|
                    0 <= i < dst.data.len() && !((i / (dst.stride as int) < r || (i / (
                    dst.stride as int) == r && i % (dst.stride as int) < c)) && i % (
                    dst.stride as int) < width) ==> dst.data@[i] == old(dst).data@[i],
            decreases width - c,
        {
            proof {
                lemma_row_base(r as int, height as int, width as int, (width * height) as int);
            }
            let tidx = r * width + c;
            let t1 = tmp1[tidx];
            let t2 = tmp2[tidx];
            let sum = (t1 as i32) + (t2 as i32);
            let av = round_shift_i32(sum, ibits + 1);
            let px_val = clamp_i32(av, 0, smax);
            let px = T::from_i32(px_val);
            proof {
                lemma_row_base(r as int, height as int, dst.stride as int, dst.data.len() as int);
            }
            let idx = r * dst.stride + c;
            dst.data.set(idx, px);
            proof {
                lemma_rc_index(r as int, c as int, dst.stride as int);
                assert forall|r2: int, c2: int|
                    0 <= r2 < height && 0 <= c2 < width && (r2 < r || (r2 == r && c2 < c
                        + 1)) implies dst.at(r2, c2) == #[trigger] spec_avg_val(
                    tmp1@[r2 * width + c2] as int,
                    tmp2@[r2 * width + c2] as int,
                    bit_depth as int,
                ) by {
                    lemma_rc_index(r2, c2, dst.stride as int);
                    lemma_row_base(r2, height as int, dst.stride as int, dst.data.len() as int);
                }
            }
            c = c + 1;
        }
        r = r + 1;
    }
    proof {
        assert forall|r2: int, c2: int|
            0 <= r2 < height && 0 <= c2 < width implies 0 <= #[trigger] dst.at(r2, c2) <= p2i(
            bit_depth as int,
        ) - 1 by {
            assert(dst.at(r2, c2) == spec_avg_val(
                tmp1@[r2 * width + c2] as int,
                tmp2@[r2 * width + c2] as int,
                bit_depth as int,
            ));
        }
    }
}

} // verus!
