use desktopwallpaper::frac::Frac;
use desktopwallpaper::remap::p3m1;
use desktopwallpaper::remap::p3m1alt1;
use desktopwallpaper::remap::p3m1alt2;
use desktopwallpaper::remap::p4m;
use desktopwallpaper::remap::p4malt;
use desktopwallpaper::remap::p6m;
use desktopwallpaper::remap::p6malt;
use desktopwallpaper::remap::p6malt1a;
use desktopwallpaper::remap::p6malt1b;
use desktopwallpaper::remap::p6malt2a;
use desktopwallpaper::remap::p6malt2b;
use desktopwallpaper::remap::pmm;
use desktopwallpaper::remap::remap;
use desktopwallpaper::remap::WallpaperGroup;

fn fr(num: u64, den: u64) -> Frac {
    Frac { num, den }
}

fn same_value(a: Frac, b: Frac) -> bool {
    (a.num as u128) * (b.den as u128) == (b.num as u128) * (a.den as u128)
}

fn same_point(a: (Frac, Frac), b: (Frac, Frac)) -> bool {
    same_value(a.0, b.0) && same_value(a.1, b.1)
}

const GROUPS: [WallpaperGroup; 12] = [
    WallpaperGroup::Pmm,
    WallpaperGroup::P4m,
    WallpaperGroup::P4mAlt,
    WallpaperGroup::P3m1,
    WallpaperGroup::P6m,
    WallpaperGroup::P6mAlt,
    WallpaperGroup::P3m1Alt1,
    WallpaperGroup::P3m1Alt2,
    WallpaperGroup::P6mAlt1a,
    WallpaperGroup::P6mAlt1b,
    WallpaperGroup::P6mAlt2a,
    WallpaperGroup::P6mAlt2b,
];

#[test]
fn test_remap_stays_in_unit_square() {
    for g in GROUPS {
        for xn in 0..=48u64 {
            for yn in 0..=48u64 {
                let (rx, ry) = remap(g, fr(xn, 48), fr(yn, 48));
                assert!(rx.den >= 1 && rx.num <= rx.den, "{:?} x {} y {}", g, xn, yn);
                assert!(ry.den >= 1 && ry.num <= ry.den, "{:?} x {} y {}", g, xn, yn);
            }
        }
    }
}

#[test]
fn test_pmm_exact_values() {
    // pmm doubles coordinates in the upper-left quadrant
    let r = pmm(fr(2, 8), fr(2, 8));
    assert!(same_value(r.0, fr(1, 2)));
    assert!(same_value(r.1, fr(1, 2)));
    // beyond the midpoint the coordinate is mirrored, then doubled
    let r = pmm(fr(6, 8), fr(7, 8));
    assert!(same_value(r.0, fr(1, 2)));
    assert!(same_value(r.1, fr(1, 4)));
    // x at the midpoint is not mirrored, y at the midpoint is
    let r = pmm(fr(4, 8), fr(4, 8));
    assert!(same_value(r.0, fr(1, 1)));
    assert!(same_value(r.1, fr(1, 1)));
}

#[test]
fn test_pmm_mirror_symmetry() {
    for xn in 0..=16u64 {
        for yn in 0..=16u64 {
            let base = pmm(fr(xn, 16), fr(yn, 16));
            assert!(same_point(pmm(fr(16 - xn, 16), fr(yn, 16)), base));
            assert!(same_point(pmm(fr(xn, 16), fr(16 - yn, 16)), base));
        }
    }
}

#[test]
fn test_p4m_mirror_symmetry() {
    for xn in 0..=16u64 {
        for yn in 0..=16u64 {
            let base = p4m(fr(xn, 16), fr(yn, 16));
            assert!(same_point(p4m(fr(16 - xn, 16), fr(yn, 16)), base));
            assert!(same_point(p4m(fr(xn, 16), fr(16 - yn, 16)), base));
            let base = p4malt(fr(xn, 16), fr(yn, 16));
            assert!(same_point(p4malt(fr(16 - xn, 16), fr(yn, 16)), base));
            assert!(same_point(p4malt(fr(xn, 16), fr(16 - yn, 16)), base));
        }
    }
}

#[test]
fn test_seam_continuity_all_groups() {
    // opposite edges of the unit square remap to the same source point,
    // so the tiled image joins without a seam
    for g in GROUPS {
        for t in 0..=24u64 {
            let left = remap(g, fr(0, 24), fr(t, 24));
            let right = remap(g, fr(24, 24), fr(t, 24));
            assert!(same_point(left, right), "{:?} horizontal seam at {}", g, t);
            let top = remap(g, fr(t, 24), fr(0, 24));
            let bottom = remap(g, fr(t, 24), fr(24, 24));
            assert!(same_point(top, bottom), "{:?} vertical seam at {}", g, t);
        }
    }
}

#[test]
fn test_p4m_folds_to_triangles() {
    for xn in 0..=12u64 {
        for yn in 0..=12u64 {
            // p4m lands where x <= y, its alternative where x >= y
            let r = p4m(fr(xn, 12), fr(yn, 12));
            assert!((r.0.num as u128) * (r.1.den as u128) <= (r.1.num as u128) * (r.0.den as u128));
            let r = p4malt(fr(xn, 12), fr(yn, 12));
            assert!((r.0.num as u128) * (r.1.den as u128) >= (r.1.num as u128) * (r.0.den as u128));
        }
    }
}

#[test]
fn test_p6m_folds_to_half() {
    for xn in 0..=12u64 {
        for yn in 0..=12u64 {
            // p6m keeps the left half of the triangle, p6malt the right
            let r = p6m(fr(xn, 12), fr(yn, 12));
            assert!(2 * r.0.num <= r.0.den);
            let r = p6malt(fr(xn, 12), fr(yn, 12));
            assert!(2 * r.0.num >= r.0.den);
            // the rotated variants fold across the horizontal midline
            let r = p6malt1a(fr(xn, 12), fr(yn, 12));
            assert!(2 * r.1.num <= r.1.den);
            let r = p6malt1b(fr(xn, 12), fr(yn, 12));
            assert!(2 * r.1.num >= r.1.den);
            let r = p6malt2a(fr(xn, 12), fr(yn, 12));
            assert!(2 * r.1.num <= r.1.den);
            let r = p6malt2b(fr(xn, 12), fr(yn, 12));
            assert!(2 * r.1.num >= r.1.den);
        }
    }
}

#[test]
fn test_p3m1_rotated_variants() {
    // the rotated definitions agree with reparameterizing p3m1
    for xn in 0..=12u64 {
        for yn in 0..=12u64 {
            let x = fr(xn, 12);
            let y = fr(yn, 12);
            let inner = p3m1(y, fr(12 - xn, 12));
            let r = p3m1alt1(x, y);
            assert!(same_value(r.0, Frac { num: inner.1.den - inner.1.num, den: inner.1.den }));
            assert!(same_value(r.1, inner.0));
            let inner = p3m1(y, x);
            let r = p3m1alt2(x, y);
            assert!(same_value(r.0, inner.1));
            assert!(same_value(r.1, inner.0));
        }
    }
}

#[test]
fn test_p3m1_exact_direct_cell() {
    // x in the second sixth, y in the lower half, right of the diagonal:
    // the cell maps directly to (xpos / 2, ypos)
    // x = 9/48 -> xarea 1, xpos 1/8; y = 47/48 -> ypos 23/24
    let (rx, ry) = p3m1(fr(9, 48), fr(47, 48));
    assert!(same_value(rx, fr(1, 16)));
    assert!(same_value(ry, fr(23, 24)));
}

#[test]
fn test_p3m1_half_period_shift() {
    // shifting the input half a period along both axes, wrapping within
    // the unit square, remaps to the same source point
    for xn in 0..24u64 {
        for yn in 0..24u64 {
            let base = p3m1(fr(xn, 24), fr(yn, 24));
            let shifted = p3m1(fr((2 * xn + 24) % 48, 48), fr((2 * yn + 24) % 48, 48));
            assert!(same_point(shifted, base), "at {} {}", xn, yn);
        }
    }
}
