use crate::cpu::CpuFeatureLevel;
use crate::filter::{get_2d_mode_idx, spec_2d_mode_idx, FilterMode};
use crate::mc::{
    depth_ok, lemma_row_base, max_sample_val, spec_avg_val, spec_max_sample, spec_prep_val,
    spec_put_pixel,
};
use crate::pixel::{Pixel, PixelType};
use crate::plane::{dst_geom_ok, samples_max_ok, src_geom_ok, PlaneRegionMut, PlaneSlice};
use vstd::prelude::*;

verus! {

/// Identity of an installed vector interpolation kernel.  Each variant names
/// the (horizontal, vertical) mode pair it implements; the closed set of
/// variants is the declarative list of routines the vector tier provides.
#[derive(Clone, Copy, PartialEq, Eq, Structural, Debug)]
pub enum PutKernel {
    RegularRegular,
    SmoothRegular,
    SharpRegular,
    RegularSmooth,
    SmoothSmooth,
    SharpSmooth,
    RegularSharp,
    SmoothSharp,
    SharpSharp,
    Bilinear,
}

/// Identity of an installed vector kernel producing the intermediate
/// prediction buffer.
#[derive(Clone, Copy, PartialEq, Eq, Structural, Debug)]
pub enum PrepKernel {
    RegularRegular,
    SmoothRegular,
    SharpRegular,
    RegularSmooth,
    SmoothSmooth,
    SharpSmooth,
    RegularSharp,
    SmoothSharp,
    SharpSharp,
    Bilinear,
}

/// Identity of an installed vector averaging kernel (mode-independent).
#[derive(Clone, Copy, PartialEq, Eq, Structural, Debug)]
pub enum AvgKernel {
    Avg,
}

/// Interpolation dispatch table: row per capability tier, 16 columns per
/// combined mode index, one table per sample type.  Only the narrow vector
/// tier is populated: the nine 8-tap mode pairs and the bilinear pair.  The
/// baseline tier and every wide slot hold no accelerated routine.
pub open spec fn spec_put_entry(pt: PixelType, cpu: CpuFeatureLevel, idx: int) -> Option<
    PutKernel,
> {
    if pt == PixelType::U8 && cpu == CpuFeatureLevel::Neon {
        if idx == 0 {
            Some(PutKernel::RegularRegular)
        } else if idx == 1 {
            Some(PutKernel::SmoothRegular)
        } else if idx == 2 {
            Some(PutKernel::SharpRegular)
        } else if idx == 4 {
            Some(PutKernel::RegularSmooth)
        } else if idx == 5 {
            Some(PutKernel::SmoothSmooth)
        } else if idx == 6 {
            Some(PutKernel::SharpSmooth)
        } else if idx == 8 {
            Some(PutKernel::RegularSharp)
        } else if idx == 9 {
            Some(PutKernel::SmoothSharp)
        } else if idx == 10 {
            Some(PutKernel::SharpSharp)
        } else if idx == 15 {
            Some(PutKernel::Bilinear)
        } else {
            None
        }
    } else {
        None
    }
}

/// Intermediate-production dispatch table, populated like [`spec_put_entry`].
pub open spec fn spec_prep_entry(pt: PixelType, cpu: CpuFeatureLevel, idx: int) -> Option<
    PrepKernel,
> {
    if pt == PixelType::U8 && cpu == CpuFeatureLevel::Neon {
        if idx == 0 {
            Some(PrepKernel::RegularRegular)
        } else if idx == 1 {
            Some(PrepKernel::SmoothRegular)
        } else if idx == 2 {
            Some(PrepKernel::SharpRegular)
        } else if idx == 4 {
            Some(PrepKernel::RegularSmooth)
        } else if idx == 5 {
            Some(PrepKernel::SmoothSmooth)
        } else if idx == 6 {
            Some(PrepKernel::SharpSmooth)
        } else if idx == 8 {
            Some(PrepKernel::RegularSharp)
        } else if idx == 9 {
            Some(PrepKernel::SmoothSharp)
        } else if idx == 10 {
            Some(PrepKernel::SharpSharp)
        } else if idx == 15 {
            Some(PrepKernel::Bilinear)
        } else {
            None
        }
    } else {
        None
    }
}

/// Averaging dispatch table, keyed by capability tier alone.
pub open spec fn spec_avg_entry(pt: PixelType, cpu: CpuFeatureLevel) -> Option<AvgKernel> {
    if pt == PixelType::U8 && cpu == CpuFeatureLevel::Neon {
        Some(AvgKernel::Avg)
    } else {
        None
    }
}

/// Table lookup for `put`: the entry for a sample type, tier and combined
/// mode index.  Total: any index outside the populated slots resolves to
/// `None` (fallback), never to an indexing error.
pub fn put_table_entry(pt: PixelType, cpu: CpuFeatureLevel, idx: usize) -> (r: Option<PutKernel>)
    ensures
        r == spec_put_entry(pt, cpu, idx as int),
{
    if pt == PixelType::U8 && cpu == CpuFeatureLevel::Neon {
        match idx {
            0 => Some(PutKernel::RegularRegular),
            1 => Some(PutKernel::SmoothRegular),
            2 => Some(PutKernel::SharpRegular),
            4 => Some(PutKernel::RegularSmooth),
            5 => Some(PutKernel::SmoothSmooth),
            6 => Some(PutKernel::SharpSmooth),
            8 => Some(PutKernel::RegularSharp),
            9 => Some(PutKernel::SmoothSharp),
            10 => Some(PutKernel::SharpSharp),
            15 => Some(PutKernel::Bilinear),
            _ => None,
        }
    } else {
        None
    }
}

/// Table lookup for `prep`, as [`put_table_entry`].
pub fn prep_table_entry(pt: PixelType, cpu: CpuFeatureLevel, idx: usize) -> (r: Option<PrepKernel>)
    ensures
        r == spec_prep_entry(pt, cpu, idx as int),
{
    if pt == PixelType::U8 && cpu == CpuFeatureLevel::Neon {
        match idx {
            0 => Some(PrepKernel::RegularRegular),
            1 => Some(PrepKernel::SmoothRegular),
            2 => Some(PrepKernel::SharpRegular),
            4 => Some(PrepKernel::RegularSmooth),
            5 => Some(PrepKernel::SmoothSmooth),
            6 => Some(PrepKernel::SharpSmooth),
            8 => Some(PrepKernel::RegularSharp),
            9 => Some(PrepKernel::SmoothSharp),
            10 => Some(PrepKernel::SharpSharp),
            15 => Some(PrepKernel::Bilinear),
            _ => None,
        }
    } else {
        None
    }
}

/// Table lookup for `avg`.
pub fn avg_table_entry(pt: PixelType, cpu: CpuFeatureLevel) -> (r: Option<AvgKernel>)
    ensures
        r == spec_avg_entry(pt, cpu),
{
    if pt == PixelType::U8 && cpu == CpuFeatureLevel::Neon {
        Some(AvgKernel::Avg)
    } else {
        None
    }
}

/// Resolve the `put` kernel for a mode pair: the selection step of the
/// dispatch operation.  The unverified shell invokes the returned kernel if
/// one is installed, and calls the portable `put_8tap` otherwise.
pub fn resolve_put(pt: PixelType, cpu: CpuFeatureLevel, mode_x: FilterMode, mode_y: FilterMode) -> (r:
    Option<PutKernel>)
    ensures
        r == spec_put_entry(pt, cpu, spec_2d_mode_idx(mode_x, mode_y)),
{
    put_table_entry(pt, cpu, get_2d_mode_idx(mode_x, mode_y))
}

/// Resolve the `prep` kernel for a mode pair.
pub fn resolve_prep(pt: PixelType, cpu: CpuFeatureLevel, mode_x: FilterMode, mode_y: FilterMode) -> (r:
    Option<PrepKernel>)
    ensures
        r == spec_prep_entry(pt, cpu, spec_2d_mode_idx(mode_x, mode_y)),
{
    prep_table_entry(pt, cpu, get_2d_mode_idx(mode_x, mode_y))
}

/// Resolve the averaging kernel: keyed by tier and sample type alone.
pub fn resolve_avg(pt: PixelType, cpu: CpuFeatureLevel) -> (r: Option<AvgKernel>)
    ensures
        r == spec_avg_entry(pt, cpu),
{
    avg_table_entry(pt, cpu)
}

/// The baseline tier never has an accelerated routine.
pub proof fn lemma_baseline_unaccelerated(pt: PixelType, idx: int)
    ensures
        spec_put_entry(pt, CpuFeatureLevel::Rust, idx) is None,
        spec_prep_entry(pt, CpuFeatureLevel::Rust, idx) is None,
        spec_avg_entry(pt, CpuFeatureLevel::Rust) is None,
{
}

/// Every wide-sample slot is unpopulated: the wide paths always fall back.
pub proof fn lemma_wide_unaccelerated(cpu: CpuFeatureLevel, idx: int)
    ensures
        spec_put_entry(PixelType::U16, cpu, idx) is None,
        spec_prep_entry(PixelType::U16, cpu, idx) is None,
        spec_avg_entry(PixelType::U16, cpu) is None,
{
}

/// A mode pair mixing bilinear with an 8-tap mode lands on a structurally
/// valid but unused slot, which resolves to `None` (fallback) rather than an
/// indexing error, for every tier and sample type.
pub proof fn lemma_unused_slot_fallback(
    pt: PixelType,
    cpu: CpuFeatureLevel,
    mode_x: FilterMode,
    mode_y: FilterMode,
)
    requires
        (mode_x == FilterMode::Bilinear) != (mode_y == FilterMode::Bilinear),
    ensures
        0 <= spec_2d_mode_idx(mode_x, mode_y) < 16,
        spec_put_entry(pt, cpu, spec_2d_mode_idx(mode_x, mode_y)) is None,
        spec_prep_entry(pt, cpu, spec_2d_mode_idx(mode_x, mode_y)) is None,
{
}

/// Every pure 8-tap mode pair, and the bilinear pair, is populated at the
/// narrow vector tier: the declarative list covers exactly those ten slots.
pub proof fn lemma_vector_tier_populated(mode_x: FilterMode, mode_y: FilterMode)
    requires
        (mode_x == FilterMode::Bilinear) == (mode_y == FilterMode::Bilinear),
    ensures
        spec_put_entry(
            PixelType::U8,
            CpuFeatureLevel::Neon,
            spec_2d_mode_idx(mode_x, mode_y),
        ) is Some,
        spec_prep_entry(
            PixelType::U8,
            CpuFeatureLevel::Neon,
            spec_2d_mode_idx(mode_x, mode_y),
        ) is Some,
{
}

/// Comparison gate of the verification wrapper for `put`: recomputes every
/// sample of the block with the portable path and reports the first
/// mismatching element, or `None` when the destination holds exactly the
/// reference result.
#[verifier::loop_isolation(false)]
#[verifier::rlimit(100)]
pub fn check_put<T: Pixel>(
    dst: &PlaneRegionMut<T>,
    src: &PlaneSlice<T>,
    width: usize,
    height: usize,
    col_frac: i32,
    row_frac: i32,
    mode_x: FilterMode,
    mode_y: FilterMode,
    bit_depth: usize,
) -> (r: Option<(usize, usize)>)
    requires
        src_geom_ok(*src, width as int, height as int),
        dst_geom_ok(*dst, width as int, height as int),
        depth_ok(bit_depth as int),
        samples_max_ok(*src, spec_max_sample(bit_depth as int)),
        0 <= col_frac < 16,
        0 <= row_frac < 16,
    ensures
        r is None <==> (forall|r2: int, c2: int|
            0 <= r2 < height && 0 <= c2 < width ==> dst.at(r2, c2) == #[trigger] spec_put_pixel(
                *src,
                mode_x,
                col_frac as int,
                mode_y,
                row_frac as int,
                bit_depth as int,
                r2,
                c2,
            )),
        r matches Some(p) ==> p.0 < height && p.1 < width && dst.at(p.0 as int, p.1 as int)
            != spec_put_pixel(
            *src,
            mode_x,
            col_frac as int,
            mode_y,
            row_frac as int,
            bit_depth as int,
            p.0 as int,
            p.1 as int,
        ),
{
    let smax = max_sample_val(bit_depth);
    let ibits = crate::filter::intermediate_bits(bit_depth);
    let mut r: usize = 0;
    while r < height
        invariant
            r <= height,
            forall|r2: int, c2: int|
                0 <= r2 < r && 0 <= c2 < width ==> dst.at(r2, c2) == #[trigger] spec_put_pixel(
                    *src,
                    mode_x,
                    col_frac as int,
                    mode_y,
                    row_frac as int,
                    bit_depth as int,
                    r2,
                    c2,
                ),
        decreases height - r,
    {
        let mut c: usize = 0;
        while c < width
            invariant
                c <= width,
                r < height,
                forall|r2: int, c2: int|
                    0 <= r2 < height && 0 <= c2 < width && (r2 < r || (r2 == r && c2 < c))
                        ==> dst.at(r2, c2) == #[trigger] spec_put_pixel(
                        *src,
                        mode_x,
                        col_frac as int,
                        mode_y,
                        row_frac as int,
                        bit_depth as int,
                        r2,
                        c2,
                    ),
            decreases width - c,
        {
            let v = crate::mc::vsum_val(
                src,
                mode_x,
                col_frac,
                mode_y,
                row_frac,
                bit_depth,
                smax,
                r,
                c,
                width,
                height,
            );
            let pv = crate::filter::round_shift_i32(v, 7 + ibits);
            let expected = crate::filter::clamp_i32(pv, 0, smax);
            proof {
                lemma_row_base(r as int, height as int, dst.stride as int, dst.data.len() as int);
            }
            let got = dst.data[r * dst.stride + c].to_i32();
            if got != expected {
                proof {
                    assert(dst.at(r as int, c as int) != spec_put_pixel(
                        *src,
                        mode_x,
                        col_frac as int,
                        mode_y,
                        row_frac as int,
                        bit_depth as int,
                        r as int,
                        c as int,
                    ));
                }
                return Some((r, c));
            }
            c = c + 1;
        }
        r = r + 1;
    }
    None
}

/// Comparison gate of the verification wrapper for `prep`.
#[verifier::loop_isolation(false)]
#[verifier::rlimit(100)]
pub fn check_prep<T: Pixel>(
    tmp: &Vec<i16>,
    src: &PlaneSlice<T>,
    width: usize,
    height: usize,
    col_frac: i32,
    row_frac: i32,
    mode_x: FilterMode,
    mode_y: FilterMode,
    bit_depth: usize,
) -> (r: Option<(usize, usize)>)
    requires
        src_geom_ok(*src, width as int, height as int),
        depth_ok(bit_depth as int),
        samples_max_ok(*src, spec_max_sample(bit_depth as int)),
        0 <= col_frac < 16,
        0 <= row_frac < 16,
        tmp.len() >= width * height,
    ensures
        r is None <==> (forall|r2: int, c2: int|
            0 <= r2 < height && 0 <= c2 < width ==> tmp@[r2 * width + c2] as int
                == #[trigger] spec_prep_val(
                *src,
                mode_x,
                col_frac as int,
                mode_y,
                row_frac as int,
                bit_depth as int,
                r2,
                c2,
            )),
        r matches Some(p) ==> p.0 < height && p.1 < width && tmp@[p.0 as int * width + p.1 as int]
            as int != spec_prep_val(
            *src,
            mode_x,
            col_frac as int,
            mode_y,
            row_frac as int,
            bit_depth as int,
            p.0 as int,
            p.1 as int,
        ),
{
    let smax = max_sample_val(bit_depth);
    proof {
        assert((width * height) as int == (height as int) * (width as int)) by (nonlinear_arith);
    }
    let mut r: usize = 0;
    while r < height
        invariant
            r <= height,
            forall|r2: int, c2: int|
                0 <= r2 < r && 0 <= c2 < width ==> tmp@[r2 * width + c2] as int
                    == #[trigger] spec_prep_val(
                    *src,
                    mode_x,
                    col_frac as int,
                    mode_y,
                    row_frac as int,
                    bit_depth as int,
                    r2,
                    c2,
                ),
        decreases height - r,
    {
        let mut c: usize = 0;
        while c < width
            invariant
                c <= width,
                r < height,
                forall|r2: int, c2: int|
                    0 <= r2 < height && 0 <= c2 < width && (r2 < r || (r2 == r && c2 < c)) ==> tmp@[
                        r2 * width + c2] as int == #[trigger] spec_prep_val(
                        *src,
                        mode_x,
                        col_frac as int,
                        mode_y,
                        row_frac as int,
                        bit_depth as int,
                        r2,
                        c2,
                    ),
            decreases width - c,
        {
            let v = crate::mc::vsum_val(
                src,
                mode_x,
                col_frac,
                mode_y,
                row_frac,
                bit_depth,
                smax,
                r,
                c,
                width,
                height,
            );
            let expected = crate::filter::round_shift_i32(v, 7);
            proof {
                lemma_row_base(r as int, height as int, width as int, (width * height) as int);
            }
            let got = tmp[r * width + c];
            if (got as i32) != expected {
                proof {
                    assert(tmp@[r as int * width + c as int] as int != spec_prep_val(
                        *src,
                        mode_x,
                        col_frac as int,
                        mode_y,
                        row_frac as int,
                        bit_depth as int,
                        r as int,
                        c as int,
                    ));
                }
                return Some((r, c));
            }
            c = c + 1;
        }
        r = r + 1;
    }
    None
}

/// Comparison gate of the verification wrapper for `avg`.
#[verifier::loop_isolation(false)]
#[verifier::rlimit(100)]
pub fn check_avg<T: Pixel>(
    dst: &PlaneRegionMut<T>,
    tmp1: &Vec<i16>,
    tmp2: &Vec<i16>,
    width: usize,
    height: usize,
    bit_depth: usize,
) -> (r: Option<(usize, usize)>)
    requires
        dst_geom_ok(*dst, width as int, height as int),
        depth_ok(bit_depth as int),
        tmp1.len() >= width * height,
        tmp2.len() >= width * height,
    ensures
        r is None <==> (forall|r2: int, c2: int|
            0 <= r2 < height && 0 <= c2 < width ==> dst.at(r2, c2) == #[trigger] spec_avg_val(
                tmp1@[r2 * width + c2] as int,
                tmp2@[r2 * width + c2] as int,
                bit_depth as int,
            )),
        r matches Some(p) ==> p.0 < height && p.1 < width && dst.at(p.0 as int, p.1 as int)
            != spec_avg_val(
            tmp1@[p.0 as int * width + p.1 as int] as int,
            tmp2@[p.0 as int * width + p.1 as int] as int,
            bit_depth as int,
        ),
{
    let smax = max_sample_val(bit_depth);
    let ibits = crate::filter::intermediate_bits(bit_depth);
    proof {
        assert((width * height) as int == (height as int) * (width as int)) by (nonlinear_arith);
    }
    let mut r: usize = 0;
    while r < height
        invariant
            r <= height,
            forall|r2: int, c2: int|
                0 <= r2 < r && 0 <= c2 < width ==> dst.at(r2, c2) == #[trigger] spec_avg_val(
                    tmp1@[r2 * width + c2] as int,
                    tmp2@[r2 * width + c2] as int,
                    bit_depth as int,
                ),
        decreases height - r,
    {
        let mut c: usize = 0;
        while c < width
            invariant
                c <= width,
                r < height,
                forall|r2: int, c2: int|
                    0 <= r2 < height && 0 <= c2 < width && (r2 < r || (r2 == r && c2 < c))
                        ==> dst.at(r2, c2) == #[trigger] spec_avg_val(
                        tmp1@[r2 * width + c2] as int,
                        tmp2@[r2 * width + c2] as int,
                        bit_depth as int,
                    ),
            decreases width - c,
        {
            proof {
                lemma_row_base(r as int, height as int, width as int, (width * height) as int);
            }
            let tidx = r * width + c;
            let t1 = tmp1[tidx];
            let t2 = tmp2[tidx];
            let sum = (t1 as i32) + (t2 as i32);
            let av = crate::filter::round_shift_i32(sum, ibits + 1);
            let expected = crate::filter::clamp_i32(av, 0, smax);
            proof {
                lemma_row_base(r as int, height as int, dst.stride as int, dst.data.len() as int);
            }
            let got = dst.data[r * dst.stride + c].to_i32();
            if got != expected {
                proof {
                    assert(dst.at(r as int, c as int) != spec_avg_val(
                        tmp1@[r as int * width + c as int] as int,
                        tmp2@[r as int * width + c as int] as int,
                        bit_depth as int,
                    ));
                }
                return Some((r, c));
            }
            c = c + 1;
        }
        r = r + 1;
    }
    None
}

} // verus!
