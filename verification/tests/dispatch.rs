use mc_dispatch::cpu::{CpuFeatureLevel, CPU_LEVEL_COUNT};
use mc_dispatch::dispatch::{resolve_avg, resolve_prep, resolve_put, AvgKernel, PrepKernel, PutKernel};
use mc_dispatch::filter::{get_2d_mode_idx, FilterMode};
use mc_dispatch::pixel::PixelType;

const MODES: [FilterMode; 4] = [
    FilterMode::Regular,
    FilterMode::Smooth,
    FilterMode::Sharp,
    FilterMode::Bilinear,
];

#[test]
fn mode_index_total_over_all_pairs() {
    for mx in MODES {
        for my in MODES {
            let idx = get_2d_mode_idx(mx, my);
            assert!(idx < 16);
        }
    }
}

#[test]
fn mode_index_exact_values() {
    assert_eq!(get_2d_mode_idx(FilterMode::Regular, FilterMode::Regular), 0);
    assert_eq!(get_2d_mode_idx(FilterMode::Smooth, FilterMode::Regular), 1);
    assert_eq!(get_2d_mode_idx(FilterMode::Sharp, FilterMode::Regular), 2);
    assert_eq!(get_2d_mode_idx(FilterMode::Regular, FilterMode::Smooth), 4);
    assert_eq!(get_2d_mode_idx(FilterMode::Sharp, FilterMode::Smooth), 6);
    assert_eq!(get_2d_mode_idx(FilterMode::Regular, FilterMode::Sharp), 8);
    assert_eq!(get_2d_mode_idx(FilterMode::Sharp, FilterMode::Sharp), 10);
    assert_eq!(get_2d_mode_idx(FilterMode::Bilinear, FilterMode::Bilinear), 15);
}

#[test]
fn cpu_index_total() {
    assert_eq!(CpuFeatureLevel::Rust.as_index(), 0);
    assert_eq!(CpuFeatureLevel::Neon.as_index(), 1);
    assert!(CpuFeatureLevel::Rust.as_index() < CPU_LEVEL_COUNT);
    assert!(CpuFeatureLevel::Neon.as_index() < CPU_LEVEL_COUNT);
}

#[test]
fn narrow_vector_tier_is_populated() {
    assert_eq!(
        resolve_put(PixelType::U8, CpuFeatureLevel::Neon, FilterMode::Regular, FilterMode::Regular),
        Some(PutKernel::RegularRegular)
    );
    assert_eq!(
        resolve_put(PixelType::U8, CpuFeatureLevel::Neon, FilterMode::Sharp, FilterMode::Smooth),
        Some(PutKernel::SharpSmooth)
    );
    assert_eq!(
        resolve_put(
            PixelType::U8,
            CpuFeatureLevel::Neon,
            FilterMode::Bilinear,
            FilterMode::Bilinear
        ),
        Some(PutKernel::Bilinear)
    );
    assert_eq!(
        resolve_prep(PixelType::U8, CpuFeatureLevel::Neon, FilterMode::Smooth, FilterMode::Sharp),
        Some(PrepKernel::SmoothSharp)
    );
    assert_eq!(resolve_avg(PixelType::U8, CpuFeatureLevel::Neon), Some(AvgKernel::Avg));
}

#[test]
fn baseline_tier_always_falls_back() {
    for mx in MODES {
        for my in MODES {
            assert_eq!(resolve_put(PixelType::U8, CpuFeatureLevel::Rust, mx, my), None);
            assert_eq!(resolve_prep(PixelType::U8, CpuFeatureLevel::Rust, mx, my), None);
        }
    }
    assert_eq!(resolve_avg(PixelType::U8, CpuFeatureLevel::Rust), None);
}

#[test]
fn wide_tables_are_empty() {
    for mx in MODES {
        for my in MODES {
            assert_eq!(resolve_put(PixelType::U16, CpuFeatureLevel::Neon, mx, my), None);
            assert_eq!(resolve_prep(PixelType::U16, CpuFeatureLevel::Neon, mx, my), None);
        }
    }
    assert_eq!(resolve_avg(PixelType::U16, CpuFeatureLevel::Neon), None);
}

#[test]
fn unused_mixed_bilinear_slot_resolves_to_none() {
    let idx = get_2d_mode_idx(FilterMode::Bilinear, FilterMode::Regular);
    assert!(idx < 16);
    assert_eq!(resolve_put(PixelType::U8, CpuFeatureLevel::Neon, FilterMode::Bilinear, FilterMode::Regular), None);
    assert_eq!(resolve_put(PixelType::U8, CpuFeatureLevel::Neon, FilterMode::Regular, FilterMode::Bilinear), None);
    assert_eq!(resolve_prep(PixelType::U8, CpuFeatureLevel::Neon, FilterMode::Smooth, FilterMode::Bilinear), None);
}
