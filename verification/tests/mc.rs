use mc_dispatch::cpu::CpuFeatureLevel;
use mc_dispatch::dispatch::{check_avg, check_prep, check_put};
use mc_dispatch::filter::FilterMode;
use mc_dispatch::mc::{mc_avg, prep_8tap, put_8tap};
use mc_dispatch::plane::{PlaneRegionMut, PlaneSlice};

/// A 16x16 narrow-sample plane with the 8x8 block at origin (4, 4), so the
/// filter margin (3 left/up, 4 right/down) stays inside the buffer.
fn narrow_plane<F: Fn(usize, usize) -> u8>(f: F) -> PlaneSlice<u8> {
    let mut data = vec![0u8; 256];
    for row in 0..16 {
        for col in 0..16 {
            data[row * 16 + col] = f(row, col);
        }
    }
    PlaneSlice { data, stride: 16, x: 4, y: 4 }
}

fn wide_plane<F: Fn(usize, usize) -> u16>(f: F) -> PlaneSlice<u16> {
    let mut data = vec![0u16; 256];
    for row in 0..16 {
        for col in 0..16 {
            data[row * 16 + col] = f(row, col);
        }
    }
    PlaneSlice { data, stride: 16, x: 4, y: 4 }
}

#[test]
fn put_zero_phase_copies_the_block() {
    let src = narrow_plane(|r, c| (r * 16 + c) as u8);
    let mut dst = PlaneRegionMut { data: vec![0u8; 64], stride: 8 };
    put_8tap(
        &mut dst,
        &src,
        8,
        8,
        0,
        0,
        FilterMode::Regular,
        FilterMode::Regular,
        8,
        CpuFeatureLevel::Rust,
    );
    for r in 0..8 {
        for c in 0..8 {
            assert_eq!(dst.data[r * 8 + c], src.data[(4 + r) * 16 + 4 + c]);
        }
    }
}

#[test]
fn put_zero_phase_copies_for_every_mode_pair() {
    let modes = [FilterMode::Regular, FilterMode::Smooth, FilterMode::Sharp, FilterMode::Bilinear];
    let src = narrow_plane(|r, c| (31 * r + 7 * c) as u8);
    for mx in modes {
        for my in modes {
            let mut dst = PlaneRegionMut { data: vec![0u8; 64], stride: 8 };
            put_8tap(&mut dst, &src, 8, 8, 0, 0, mx, my, 8, CpuFeatureLevel::Neon);
            for r in 0..8 {
                for c in 0..8 {
                    assert_eq!(dst.data[r * 8 + c], src.data[(4 + r) * 16 + 4 + c]);
                }
            }
        }
    }
}

#[test]
fn put_zero_phase_copies_wide_block() {
    let src = wide_plane(|r, c| (r * 50 + c) as u16);
    let mut dst = PlaneRegionMut { data: vec![0u16; 64], stride: 8 };
    put_8tap(
        &mut dst,
        &src,
        8,
        8,
        0,
        0,
        FilterMode::Sharp,
        FilterMode::Smooth,
        10,
        CpuFeatureLevel::Rust,
    );
    for r in 0..8 {
        for c in 0..8 {
            assert_eq!(dst.data[r * 8 + c], src.data[(4 + r) * 16 + 4 + c]);
        }
    }
}

#[test]
fn put_constant_block_is_constant_at_any_phase() {
    let src = narrow_plane(|_, _| 100);
    for frac in [1, 7, 8, 15] {
        let mut dst = PlaneRegionMut { data: vec![0u8; 64], stride: 8 };
        put_8tap(
            &mut dst,
            &src,
            8,
            8,
            frac,
            frac,
            FilterMode::Smooth,
            FilterMode::Sharp,
            8,
            CpuFeatureLevel::Rust,
        );
        assert!(dst.data.iter().all(|&v| v == 100));
    }
}

#[test]
fn put_bilinear_half_phase_midpoint_exact() {
    // Samples grow by 2 per column, so the half-sample bilinear interpolation
    // lands exactly midway and rounds to 2 * c + 1 at every block position.
    let src = narrow_plane(|_, c| (2 * c) as u8);
    let mut dst = PlaneRegionMut { data: vec![0u8; 64], stride: 8 };
    put_8tap(
        &mut dst,
        &src,
        8,
        8,
        8,
        0,
        FilterMode::Bilinear,
        FilterMode::Bilinear,
        8,
        CpuFeatureLevel::Rust,
    );
    for r in 0..8 {
        for c in 0..8 {
            assert_eq!(dst.data[r * 8 + c], (2 * (4 + c) + 1) as u8);
        }
    }
}

#[test]
fn prep_zero_phase_scales_by_intermediate_bits() {
    let src = narrow_plane(|r, c| (r + 10 * c) as u8);
    let mut tmp = vec![0i16; 64];
    prep_8tap(
        &mut tmp,
        &src,
        8,
        8,
        0,
        0,
        FilterMode::Regular,
        FilterMode::Regular,
        8,
        CpuFeatureLevel::Rust,
    );
    for r in 0..8 {
        for c in 0..8 {
            let s = src.data[(4 + r) * 16 + 4 + c] as i16;
            assert_eq!(tmp[r * 8 + c], s << 4);
        }
    }
}

#[test]
fn prep_then_avg_reconstructs_source() {
    let src = narrow_plane(|r, c| (13 * r + 3 * c) as u8);
    let mut tmp = vec![0i16; 64];
    prep_8tap(
        &mut tmp,
        &src,
        8,
        8,
        0,
        0,
        FilterMode::Smooth,
        FilterMode::Smooth,
        8,
        CpuFeatureLevel::Rust,
    );
    let tmp2 = tmp.clone();
    let mut dst = PlaneRegionMut { data: vec![0u8; 64], stride: 8 };
    mc_avg(&mut dst, &tmp, &tmp2, 8, 8, 8, CpuFeatureLevel::Rust);
    for r in 0..8 {
        for c in 0..8 {
            assert_eq!(dst.data[r * 8 + c], src.data[(4 + r) * 16 + 4 + c]);
        }
    }
}

#[test]
fn prep_then_avg_reconstructs_wide_source() {
    let src = wide_plane(|r, c| (r * 250 + c * 17) as u16);
    let mut tmp = vec![0i16; 64];
    prep_8tap(
        &mut tmp,
        &src,
        8,
        8,
        0,
        0,
        FilterMode::Sharp,
        FilterMode::Regular,
        12,
        CpuFeatureLevel::Rust,
    );
    let tmp2 = tmp.clone();
    let mut dst = PlaneRegionMut { data: vec![0u16; 64], stride: 8 };
    mc_avg(&mut dst, &tmp, &tmp2, 8, 8, 12, CpuFeatureLevel::Rust);
    for r in 0..8 {
        for c in 0..8 {
            assert_eq!(dst.data[r * 8 + c], src.data[(4 + r) * 16 + 4 + c]);
        }
    }
}

#[test]
fn avg_rounds_to_nearest_exactly() {
    // Intermediate values at 8-bit depth carry 4 extra bits: a << 4.
    let tmp1: Vec<i16> = vec![10 << 4; 4];
    let tmp2: Vec<i16> = vec![13 << 4; 4];
    let mut dst = PlaneRegionMut { data: vec![0u8; 4], stride: 2 };
    mc_avg(&mut dst, &tmp1, &tmp2, 2, 2, 8, CpuFeatureLevel::Rust);
    // round_shift(16 * 10 + 16 * 13, 5) == (368 + 16) >> 5 == 12.
    assert!(dst.data.iter().all(|&v| v == 12));

    let tmp3: Vec<i16> = vec![12 << 4; 4];
    let mut dst2 = PlaneRegionMut { data: vec![0u8; 4], stride: 2 };
    mc_avg(&mut dst2, &tmp1, &tmp3, 2, 2, 8, CpuFeatureLevel::Rust);
    // (160 + 192 + 16) >> 5 == 11.
    assert!(dst2.data.iter().all(|&v| v == 11));
}

#[test]
fn avg_clamps_at_depth_boundaries() {
    for bd in [8usize, 12] {
        let max = (1u16 << bd) - 1;
        let hi: Vec<i16> = vec![i16::MAX; 16];
        let lo: Vec<i16> = vec![i16::MIN; 16];
        let mut dst = PlaneRegionMut { data: vec![0u16; 16], stride: 4 };
        mc_avg(&mut dst, &hi, &hi, 4, 4, bd, CpuFeatureLevel::Rust);
        assert!(dst.data.iter().all(|&v| v == max));
        let mut dst2 = PlaneRegionMut { data: vec![1u16; 16], stride: 4 };
        mc_avg(&mut dst2, &lo, &lo, 4, 4, bd, CpuFeatureLevel::Rust);
        assert!(dst2.data.iter().all(|&v| v == 0));
    }
}

#[test]
fn dispatch_is_idempotent_and_level_independent() {
    let src = narrow_plane(|r, c| (5 * r * c + r) as u8);
    let mut d1 = PlaneRegionMut { data: vec![0u8; 64], stride: 8 };
    let mut d2 = PlaneRegionMut { data: vec![255u8; 64], stride: 8 };
    put_8tap(&mut d1, &src, 8, 8, 5, 11, FilterMode::Regular, FilterMode::Sharp, 8, CpuFeatureLevel::Rust);
    put_8tap(&mut d2, &src, 8, 8, 5, 11, FilterMode::Regular, FilterMode::Sharp, 8, CpuFeatureLevel::Neon);
    assert_eq!(d1.data, d2.data);
    let first = d1.data.clone();
    put_8tap(&mut d1, &src, 8, 8, 5, 11, FilterMode::Regular, FilterMode::Sharp, 8, CpuFeatureLevel::Rust);
    assert_eq!(d1.data, first);
}

#[test]
fn check_gates_accept_reference_and_report_mismatch() {
    let src = narrow_plane(|r, c| (3 * r + 11 * c) as u8);
    let mut dst = PlaneRegionMut { data: vec![0u8; 64], stride: 8 };
    put_8tap(&mut dst, &src, 8, 8, 6, 9, FilterMode::Smooth, FilterMode::Regular, 8, CpuFeatureLevel::Rust);
    assert_eq!(
        check_put(&dst, &src, 8, 8, 6, 9, FilterMode::Smooth, FilterMode::Regular, 8),
        None
    );
    dst.data[0] = dst.data[0].wrapping_add(1);
    assert_eq!(
        check_put(&dst, &src, 8, 8, 6, 9, FilterMode::Smooth, FilterMode::Regular, 8),
        Some((0, 0))
    );

    let mut tmp = vec![0i16; 64];
    prep_8tap(&mut tmp, &src, 8, 8, 6, 9, FilterMode::Smooth, FilterMode::Regular, 8, CpuFeatureLevel::Rust);
    assert_eq!(
        check_prep(&tmp, &src, 8, 8, 6, 9, FilterMode::Smooth, FilterMode::Regular, 8),
        None
    );
    tmp[9] += 1;
    assert_eq!(
        check_prep(&tmp, &src, 8, 8, 6, 9, FilterMode::Smooth, FilterMode::Regular, 8),
        Some((1, 1))
    );

    let t1 = vec![100i16 << 4; 64];
    let t2 = vec![50i16 << 4; 64];
    let mut avg_dst = PlaneRegionMut { data: vec![0u8; 64], stride: 8 };
    mc_avg(&mut avg_dst, &t1, &t2, 8, 8, 8, CpuFeatureLevel::Rust);
    assert_eq!(check_avg::<u8>(&avg_dst, &t1, &t2, 8, 8, 8), None);
    avg_dst.data[17] ^= 0x40;
    assert_eq!(check_avg::<u8>(&avg_dst, &t1, &t2, 8, 8, 8), Some((2, 1)));
}

#[test]
fn unused_slot_falls_back_without_error() {
    // A bilinear/regular cross lands on an unpopulated table slot; the
    // operation must still produce the reference result via fallback.
    let src = narrow_plane(|r, c| (9 * r + c) as u8);
    let mut dst = PlaneRegionMut { data: vec![0u8; 64], stride: 8 };
    put_8tap(
        &mut dst,
        &src,
        8,
        8,
        0,
        0,
        FilterMode::Bilinear,
        FilterMode::Regular,
        8,
        CpuFeatureLevel::Neon,
    );
    for r in 0..8 {
        for c in 0..8 {
            assert_eq!(dst.data[r * 8 + c], src.data[(4 + r) * 16 + 4 + c]);
        }
    }
}

#[test]
fn prep_constant_any_phase_then_avg_reconstructs() {
    let src = narrow_plane(|_, _| 77);
    let mut tmp = vec![0i16; 64];
    prep_8tap(
        &mut tmp,
        &src,
        8,
        8,
        5,
        13,
        FilterMode::Regular,
        FilterMode::Smooth,
        8,
        CpuFeatureLevel::Rust,
    );
    assert!(tmp.iter().all(|&t| t == 77 << 4));
    let tmp2 = tmp.clone();
    let mut dst = PlaneRegionMut { data: vec![0u8; 64], stride: 8 };
    mc_avg(&mut dst, &tmp, &tmp2, 8, 8, 8, CpuFeatureLevel::Rust);
    assert!(dst.data.iter().all(|&v| v == 77));
}
