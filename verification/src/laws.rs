use crate::filter::{
    inter_bits, lemma_mul_le, lemma_p2i_add, lemma_p2i_pos, p2i, round_shift, side_weight,
    FilterMode,
};
use crate::mc::{
    depth_ok, lemma_max_sample_value, lemma_row_base, spec_avg_val, spec_hsum, spec_max_sample,
    spec_mid, spec_prep_val, spec_put_pixel, spec_vsum,
};
use crate::pixel::Pixel;
use crate::plane::{samples_max_ok, src_geom_ok, PlaneRegionMut, PlaneSlice};
use vstd::arithmetic::div_mod::lemma_fundamental_div_mod_converse;
use vstd::prelude::*;

verus! {

/// A sample read through a well-formed view (block plus filter margin) lies
/// in the depth's range.
pub proof fn lemma_at_in_range<T: Pixel>(
    src: PlaneSlice<T>,
    bd: int,
    w: int,
    h: int,
    rr: int,
    c: int,
)
    requires
        src_geom_ok(src, w, h),
        samples_max_ok(src, spec_max_sample(bd)),
        depth_ok(bd),
        -3 <= rr < h + 4,
        -3 <= c < w + 4,
    ensures
        0 <= src.at(rr, c) <= p2i(bd) - 1,
{
    lemma_max_sample_value(bd);
    lemma_row_base(src.y + rr, src.y + h + 4, src.stride as int, src.data.len() as int);
    lemma_mul_le(0, src.y + rr, src.stride as int);
}

/// At zero fractional phase the horizontal pass reduces to the centre sample
/// scaled by 128, for every filter mode: phase 0 is a no-op row.
proof fn lemma_hsum_zero<T: Pixel>(src: PlaneSlice<T>, mode_x: FilterMode, rr: int, c: int)
    ensures
        spec_hsum(src, mode_x, 0, rr, c) == 128 * src.at(rr, c),
{
    assert(side_weight(0) == 0);
}

/// A value scaled by the full coefficient weight 128 rounds back exactly to
/// the value at `inter_bits` extra precision.
proof fn lemma_rs128_scale(k: int, bd: int)
    requires
        depth_ok(bd),
    ensures
        round_shift(128 * k, 7 - inter_bits(bd)) == k * p2i(inter_bits(bd)),
{
    let ib = inter_bits(bd);
    let d = p2i(7 - ib);
    let half = p2i(6 - ib);
    reveal_with_fuel(p2i, 9);
    lemma_p2i_add(7 - ib, ib);
    lemma_p2i_pos(6 - ib);
    assert(d == 2 * half);
    assert((k * p2i(ib)) * d == 128 * k) by (nonlinear_arith)
        requires
            d * p2i(ib) == 128,
    ;
    lemma_fundamental_div_mod_converse(128 * k + half, d, k * p2i(ib), half);
}

/// The final rounding stage undoes both the coefficient weight and the
/// intermediate precision exactly.
proof fn lemma_rs_final_scale(k: int, bd: int)
    requires
        depth_ok(bd),
    ensures
        round_shift(128 * (k * p2i(inter_bits(bd))), 7 + inter_bits(bd)) == k,
{
    let ib = inter_bits(bd);
    let d2 = p2i(7 + ib);
    let half2 = p2i(6 + ib);
    reveal_with_fuel(p2i, 14);
    lemma_p2i_add(7, ib);
    lemma_p2i_pos(6 + ib);
    assert(d2 == 2 * half2);
    assert(k * d2 == 128 * (k * p2i(ib))) by (nonlinear_arith)
        requires
            d2 == 128 * p2i(ib),
    ;
    lemma_fundamental_div_mod_converse(128 * (k * p2i(ib)) + half2, d2, k, half2);
}

/// At zero fractional phase the intermediate value is the centre sample at
/// `inter_bits` extra precision, exactly.
proof fn lemma_mid_zero<T: Pixel>(src: PlaneSlice<T>, mode_x: FilterMode, bd: int, rr: int, c: int)
    requires
        depth_ok(bd),
    ensures
        spec_mid(src, mode_x, 0, bd, rr, c) == src.at(rr, c) * p2i(inter_bits(bd)),
{
    lemma_hsum_zero(src, mode_x, rr, c);
    lemma_rs128_scale(src.at(rr, c), bd);
}

/// At zero fractional phase on both axes the vertical pass reduces to the
/// centre intermediate value scaled by 128.
proof fn lemma_vsum_zero<T: Pixel>(
    src: PlaneSlice<T>,
    mode_x: FilterMode,
    mode_y: FilterMode,
    bd: int,
    r: int,
    c: int,
)
    requires
        depth_ok(bd),
    ensures
        spec_vsum(src, mode_x, 0, mode_y, 0, bd, r, c) == 128 * (src.at(r, c) * p2i(
            inter_bits(bd),
        )),
{
    lemma_mid_zero(src, mode_x, bd, r, c);
    assert(side_weight(0) == 0);
}

/// Zero fractional phase is a no-op for every mode pair: the interpolated
/// block is a direct copy of the corresponding source region.
pub proof fn lemma_put_zero_frac<T: Pixel>(
    src: PlaneSlice<T>,
    mode_x: FilterMode,
    mode_y: FilterMode,
    bd: int,
    w: int,
    h: int,
    r: int,
    c: int,
)
    requires
        src_geom_ok(src, w, h),
        samples_max_ok(src, spec_max_sample(bd)),
        depth_ok(bd),
        0 <= r < h,
        0 <= c < w,
    ensures
        spec_put_pixel(src, mode_x, 0, mode_y, 0, bd, r, c) == src.at(r, c),
{
    lemma_vsum_zero(src, mode_x, mode_y, bd, r, c);
    lemma_at_in_range(src, bd, w, h, r, c);
    lemma_rs_final_scale(src.at(r, c), bd);
}

/// At zero fractional phase the intermediate buffer holds the source sample
/// at `inter_bits` extra precision.
pub proof fn lemma_prep_zero_frac<T: Pixel>(
    src: PlaneSlice<T>,
    mode_x: FilterMode,
    mode_y: FilterMode,
    bd: int,
    r: int,
    c: int,
)
    requires
        depth_ok(bd),
    ensures
        spec_prep_val(src, mode_x, 0, mode_y, 0, bd, r, c) == src.at(r, c) * p2i(inter_bits(bd)),
{
    lemma_vsum_zero(src, mode_x, mode_y, bd, r, c);
    let ib = inter_bits(bd);
    let t = src.at(r, c) * p2i(ib);
    reveal_with_fuel(p2i, 9);
    lemma_fundamental_div_mod_converse(128 * t + 64, 128, t, 64);
}

/// Averaging two identical intermediate values reconstructs the sample they
/// encode: the average of a value with itself is itself, post-rounding.
pub proof fn lemma_avg_of_equal(t: int, s: int, bd: int)
    requires
        depth_ok(bd),
        0 <= s <= p2i(bd) - 1,
        t == s * p2i(inter_bits(bd)),
    ensures
        spec_avg_val(t, t, bd) == s,
{
    let ib = inter_bits(bd);
    reveal_with_fuel(p2i, 7);
    lemma_p2i_pos(ib);
    assert(p2i(ib + 1) == 2 * p2i(ib));
    assert(t + t == s * p2i(ib + 1)) by (nonlinear_arith)
        requires
            t == s * p2i(ib),
            p2i(ib + 1) == 2 * p2i(ib),
    ;
    lemma_fundamental_div_mod_converse(t + t + p2i(ib), p2i(ib + 1), s, p2i(ib));
}

/// `prep` at zero phase followed by `average` of two identical buffers
/// yields the source block unchanged at the requested depth.
pub proof fn lemma_prep_avg_reconstruct<T: Pixel>(
    src: PlaneSlice<T>,
    mode_x: FilterMode,
    mode_y: FilterMode,
    bd: int,
    w: int,
    h: int,
    r: int,
    c: int,
)
    requires
        src_geom_ok(src, w, h),
        samples_max_ok(src, spec_max_sample(bd)),
        depth_ok(bd),
        0 <= r < h,
        0 <= c < w,
    ensures
        spec_avg_val(
            spec_prep_val(src, mode_x, 0, mode_y, 0, bd, r, c),
            spec_prep_val(src, mode_x, 0, mode_y, 0, bd, r, c),
            bd,
        ) == src.at(r, c),
{
    lemma_prep_zero_frac(src, mode_x, mode_y, bd, r, c);
    lemma_at_in_range(src, bd, w, h, r, c);
    lemma_avg_of_equal(spec_prep_val(src, mode_x, 0, mode_y, 0, bd, r, c), src.at(r, c), bd);
}

/// Every coefficient row sums to 128: on a row of identical samples the
/// horizontal pass returns the sample scaled by the full weight, at every
/// fractional phase and for every mode.
proof fn lemma_hsum_constant<T: Pixel>(
    src: PlaneSlice<T>,
    mode_x: FilterMode,
    cf: int,
    rr: int,
    c: int,
    k: int,
)
    requires
        0 <= cf < 16,
        src.at(rr, c - 3) == k,
        src.at(rr, c - 2) == k,
        src.at(rr, c - 1) == k,
        src.at(rr, c) == k,
        src.at(rr, c + 1) == k,
        src.at(rr, c + 2) == k,
        src.at(rr, c + 3) == k,
        src.at(rr, c + 4) == k,
    ensures
        spec_hsum(src, mode_x, cf, rr, c) == 128 * k,
{
    let w2 = side_weight(cf);
    assert((8 * (16 - cf) + w2) * k + (8 * cf + w2) * k - w2 * k - w2 * k == 128 * k)
        by (nonlinear_arith);
    assert((8 * (16 - cf) - w2) * k + (8 * cf - w2) * k + w2 * k + w2 * k == 128 * k)
        by (nonlinear_arith);
    assert((8 * (16 - cf)) * k + (8 * cf) * k == 128 * k) by (nonlinear_arith);
}

/// On a constant block the intermediate value is the constant at
/// `inter_bits` extra precision, at every phase.
proof fn lemma_mid_constant<T: Pixel>(
    src: PlaneSlice<T>,
    mode_x: FilterMode,
    cf: int,
    bd: int,
    w: int,
    h: int,
    rr: int,
    c: int,
    k: int,
)
    requires
        depth_ok(bd),
        0 <= cf < 16,
        -3 <= rr < h + 4,
        0 <= c < w,
        forall|r2: int, c2: int|
            -3 <= r2 < h + 4 && -3 <= c2 < w + 4 ==> #[trigger] src.at(r2, c2) == k,
    ensures
        spec_mid(src, mode_x, cf, bd, rr, c) == k * p2i(inter_bits(bd)),
{
    assert(src.at(rr, c - 3) == k);
    assert(src.at(rr, c - 2) == k);
    assert(src.at(rr, c - 1) == k);
    assert(src.at(rr, c) == k);
    assert(src.at(rr, c + 1) == k);
    assert(src.at(rr, c + 2) == k);
    assert(src.at(rr, c + 3) == k);
    assert(src.at(rr, c + 4) == k);
    lemma_hsum_constant(src, mode_x, cf, rr, c, k);
    lemma_rs128_scale(k, bd);
}

/// Coefficient normalisation, end to end: a block of identical samples is
/// interpolated to itself at every fractional phase, for every mode pair.
pub proof fn lemma_put_constant<T: Pixel>(
    src: PlaneSlice<T>,
    mode_x: FilterMode,
    cf: int,
    mode_y: FilterMode,
    rf: int,
    bd: int,
    w: int,
    h: int,
    r: int,
    c: int,
    k: int,
)
    requires
        src_geom_ok(src, w, h),
        depth_ok(bd),
        0 <= cf < 16,
        0 <= rf < 16,
        0 <= r < h,
        0 <= c < w,
        0 <= k <= spec_max_sample(bd),
        forall|r2: int, c2: int|
            -3 <= r2 < h + 4 && -3 <= c2 < w + 4 ==> #[trigger] src.at(r2, c2) == k,
    ensures
        spec_put_pixel(src, mode_x, cf, mode_y, rf, bd, r, c) == k,
{
    let ib = inter_bits(bd);
    let m = k * p2i(ib);
    lemma_mid_constant(src, mode_x, cf, bd, w, h, r - 3, c, k);
    lemma_mid_constant(src, mode_x, cf, bd, w, h, r - 2, c, k);
    lemma_mid_constant(src, mode_x, cf, bd, w, h, r - 1, c, k);
    lemma_mid_constant(src, mode_x, cf, bd, w, h, r, c, k);
    lemma_mid_constant(src, mode_x, cf, bd, w, h, r + 1, c, k);
    lemma_mid_constant(src, mode_x, cf, bd, w, h, r + 2, c, k);
    lemma_mid_constant(src, mode_x, cf, bd, w, h, r + 3, c, k);
    lemma_mid_constant(src, mode_x, cf, bd, w, h, r + 4, c, k);
    let w2 = side_weight(rf);
    assert((8 * (16 - rf) + w2) * m + (8 * rf + w2) * m - w2 * m - w2 * m == 128 * m)
        by (nonlinear_arith);
    assert((8 * (16 - rf) - w2) * m + (8 * rf - w2) * m + w2 * m + w2 * m == 128 * m)
        by (nonlinear_arith);
    assert((8 * (16 - rf)) * m + (8 * rf) * m == 128 * m) by (nonlinear_arith);
    assert(spec_vsum(src, mode_x, cf, mode_y, rf, bd, r, c) == 128 * m);
    lemma_rs_final_scale(k, bd);
    lemma_max_sample_value(bd);
}

/// The intermediate buffer produced from a constant block holds the
/// constant at `inter_bits` extra precision at every phase, so averaging two
/// such buffers reconstructs the constant.
pub proof fn lemma_prep_constant<T: Pixel>(
    src: PlaneSlice<T>,
    mode_x: FilterMode,
    cf: int,
    mode_y: FilterMode,
    rf: int,
    bd: int,
    w: int,
    h: int,
    r: int,
    c: int,
    k: int,
)
    requires
        src_geom_ok(src, w, h),
        depth_ok(bd),
        0 <= cf < 16,
        0 <= rf < 16,
        0 <= r < h,
        0 <= c < w,
        forall|r2: int, c2: int|
            -3 <= r2 < h + 4 && -3 <= c2 < w + 4 ==> #[trigger] src.at(r2, c2) == k,
    ensures
        spec_prep_val(src, mode_x, cf, mode_y, rf, bd, r, c) == k * p2i(inter_bits(bd)),
{
    let ib = inter_bits(bd);
    let m = k * p2i(ib);
    lemma_mid_constant(src, mode_x, cf, bd, w, h, r - 3, c, k);
    lemma_mid_constant(src, mode_x, cf, bd, w, h, r - 2, c, k);
    lemma_mid_constant(src, mode_x, cf, bd, w, h, r - 1, c, k);
    lemma_mid_constant(src, mode_x, cf, bd, w, h, r, c, k);
    lemma_mid_constant(src, mode_x, cf, bd, w, h, r + 1, c, k);
    lemma_mid_constant(src, mode_x, cf, bd, w, h, r + 2, c, k);
    lemma_mid_constant(src, mode_x, cf, bd, w, h, r + 3, c, k);
    lemma_mid_constant(src, mode_x, cf, bd, w, h, r + 4, c, k);
    let w2 = side_weight(rf);
    assert((8 * (16 - rf) + w2) * m + (8 * rf + w2) * m - w2 * m - w2 * m == 128 * m)
        by (nonlinear_arith);
    assert((8 * (16 - rf) - w2) * m + (8 * rf - w2) * m + w2 * m + w2 * m == 128 * m)
        by (nonlinear_arith);
    assert((8 * (16 - rf)) * m + (8 * rf) * m == 128 * m) by (nonlinear_arith);
    assert(spec_vsum(src, mode_x, cf, mode_y, rf, bd, r, c) == 128 * m);
    reveal_with_fuel(p2i, 9);
    lemma_fundamental_div_mod_converse(128 * m + 64, 128, m, 64);
}

/// Dispatch is stateless and capability-independent: any two destinations
/// that satisfy the interpolation contract for the same inputs — whether
/// produced by repeated invocations, by different capability levels, or by
/// the fallback path of an unpopulated table slot — hold identical samples
/// over the whole block.
pub proof fn lemma_put_deterministic<T: Pixel>(
    d1: PlaneRegionMut<T>,
    d2: PlaneRegionMut<T>,
    src: PlaneSlice<T>,
    mode_x: FilterMode,
    cf: int,
    mode_y: FilterMode,
    rf: int,
    bd: int,
    w: int,
    h: int,
)
    requires
        forall|r: int, c: int|
            0 <= r < h && 0 <= c < w ==> d1.at(r, c) == #[trigger] spec_put_pixel(
                src,
                mode_x,
                cf,
                mode_y,
                rf,
                bd,
                r,
                c,
            ),
        forall|r: int, c: int|
            0 <= r < h && 0 <= c < w ==> d2.at(r, c) == #[trigger] spec_put_pixel(
                src,
                mode_x,
                cf,
                mode_y,
                rf,
                bd,
                r,
                c,
            ),
    ensures
        forall|r: int, c: int| 0 <= r < h && 0 <= c < w ==> #[trigger] d1.at(r, c) == d2.at(r, c),
{
    assert forall|r: int, c: int| 0 <= r < h && 0 <= c < w implies #[trigger] d1.at(r, c) == d2.at(
        r,
        c,
    ) by {
        assert(d1.at(r, c) == spec_put_pixel(src, mode_x, cf, mode_y, rf, bd, r, c));
    }
}

} // verus!
