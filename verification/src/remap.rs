//! Wallpaper-group coordinate remapping.
//!
//! Twelve pure functions, each mapping a normalized destination
//! coordinate in the unit square to a normalized source coordinate in
//! the unit square, so that tiling the remapped image produces no
//! visible seams.  They implement variations of the wallpaper groups
//! Pmm, P4m, P3m1 and P6m, the only four that produce seamless images
//! from areas with arbitrary contents.
//!
//! All coordinates are exact fractions (`Frac`).  Each executable
//! function is proved equal to a specification function over unbounded
//! integers; the specification functions return `(numerator,
//! denominator)` pairs.
use crate::frac::Frac;
use vstd::arithmetic::div_mod::lemma_fundamental_div_mod;
use vstd::arithmetic::div_mod::lemma_fundamental_div_mod_converse_div;
use vstd::arithmetic::mul::lemma_mul_inequality;
use vstd::prelude::*;

verus! {

/// Upper bound on the denominators the remappers accept, so that every
/// intermediate product fits comfortably in 64-bit arithmetic.
pub const REMAP_DEN_LIMIT: u64 = 0x10000000;

/// A well-formed unit-interval fraction, as a numerator/denominator pair.
pub open spec fn unit_frac(n: int, d: int) -> bool {
    1 <= d && 0 <= n && n <= d
}

/// Both halves of a remapped point are unit-interval fractions.
pub open spec fn unit_pair(p: ((int, int), (int, int))) -> bool {
    unit_frac(p.0.0, p.0.1) && unit_frac(p.1.0, p.1.1)
}

/// An executable pair of fractions agrees with a specification-level
/// pair of (numerator, denominator) pairs.
pub open spec fn frac_pair_is(r: (Frac, Frac), s: ((int, int), (int, int))) -> bool {
    r.0.num == s.0.0 && r.0.den == s.0.1 && r.1.num == s.1.0 && r.1.den == s.1.1
}

/// Numerator of the pmm fold along the x axis: coordinates strictly
/// beyond the midpoint are mirrored about it, then doubled.
pub open spec fn pmm_fold_x(n: int, d: int) -> int {
    if 2 * n > d {
        2 * (d - n)
    } else {
        2 * n
    }
}

/// Numerator of the pmm fold along the y axis: coordinates at or beyond
/// the midpoint are mirrored about it, then doubled.
pub open spec fn pmm_fold_y(n: int, d: int) -> int {
    if 2 * n >= d {
        2 * (d - n)
    } else {
        2 * n
    }
}

/// Wallpaper group Pmm: reflects each quadrant of the unit square into
/// the upper-left quadrant, then doubles.
pub open spec fn spec_pmm(xn: int, xd: int, yn: int, yd: int) -> ((int, int), (int, int)) {
    ((pmm_fold_x(xn, xd), xd), (pmm_fold_y(yn, yd), yd))
}

/// Wallpaper group P4m: pmm, then a fold across the diagonal from the
/// lower-left to the upper-right corner.
pub open spec fn spec_p4m(xn: int, xd: int, yn: int, yd: int) -> ((int, int), (int, int)) {
    let r = spec_pmm(xn, xd, yn, yd);
    if r.0.0 * r.1.1 > r.1.0 * r.0.1 {
        (r.1, r.0)
    } else {
        r
    }
}

/// Wallpaper group P4m, alternative orientation: pmm, then a fold
/// across the other diagonal.
pub open spec fn spec_p4malt(xn: int, xd: int, yn: int, yd: int) -> ((int, int), (int, int)) {
    let r = spec_pmm(xn, xd, yn, yd);
    if r.0.0 * r.1.1 < r.1.0 * r.0.1 {
        (r.1, r.0)
    } else {
        r
    }
}

/// Which horizontal sixth of the unit square a coordinate falls in
/// (the last sixth also takes the right edge).
pub open spec fn sixth_index(n: int, d: int) -> int {
    if 6 * n / d < 5 {
        6 * n / d
    } else {
        5
    }
}

/// Position within the chosen sixth, as a numerator over `d`.
pub open spec fn sixth_rem(n: int, d: int) -> int {
    6 * n - sixth_index(n, d) * d
}

/// Which vertical half of the unit square a coordinate falls in.
pub open spec fn half_index(n: int, d: int) -> int {
    if 2 * n < d {
        0
    } else {
        1
    }
}

/// Position within the chosen half, as a numerator over `d`.
pub open spec fn half_rem(n: int, d: int) -> int {
    if 2 * n < d {
        2 * n
    } else {
        2 * n - d
    }
}

/// Clamp a numerator into `[0, hi]`.
pub open spec fn clamp_num(v: int, hi: int) -> int {
    if v < 0 {
        0
    } else if v > hi {
        hi
    } else {
        v
    }
}

/// Direct remap of a p3m1 cell: `(xp, yp)`, where `xp = a / (2 d)` and
/// `yp = b / e`, as numerators over `4 d e`.
pub open spec fn direct_nums(a: int, b: int, d: int, e: int) -> (int, int) {
    (2 * e * a, 4 * d * b)
}

/// Affine remap of a p3m1 cell into one half of the source triangle:
/// `(1 - xp/2 - 3 yp/4, 1 - xp + yp/2)` clamped to the unit square,
/// as numerators over `4 d e`.
pub open spec fn affine_down_nums(a: int, b: int, d: int, e: int) -> (int, int) {
    (
        clamp_num(4 * d * e - a * e - 3 * b * d, 4 * d * e),
        clamp_num(4 * d * e - 2 * a * e + 2 * b * d, 4 * d * e),
    )
}

/// Affine remap of a p3m1 cell into the other half of the source
/// triangle: `(1/2 - xp/2 + 3 yp/4, xp + yp/2)` clamped to the unit
/// square, as numerators over `4 d e`.
pub open spec fn affine_up_nums(a: int, b: int, d: int, e: int) -> (int, int) {
    (
        clamp_num(2 * d * e - a * e + 3 * b * d, 4 * d * e),
        clamp_num(2 * a * e + 2 * b * d, 4 * d * e),
    )
}

/// The numerators of the p3m1 remap, over the denominator `4 xd yd`.
///
/// The unit square is divided into six horizontal sixths and two
/// vertical halves; a diagonal test whose direction alternates in a
/// checkerboard fashion splits each cell in two, and each of the
/// resulting triangles is remapped into the isosceles source triangle
/// by one of the three cell remaps above.
pub open spec fn p3m1_nums(xn: int, xd: int, yn: int, yd: int) -> (int, int) {
    let xa = sixth_index(xn, xd);
    let pn = sixth_rem(xn, xd);
    let ya = half_index(yn, yd);
    let qn = half_rem(yn, yd);
    let d = xd;
    let e = yd;
    let lh = if (xa + ya) % 2 == 0 {
        pn * e + qn * d < d * e
    } else {
        pn * e < qn * d
    };
    if !lh {
        if (xa == 1 && ya == 1) || (xa == 4 && ya == 0) {
            direct_nums(pn, qn, d, e)
        } else if (xa == 1 && ya == 0) || (xa == 4 && ya == 1) {
            direct_nums(pn, e - qn, d, e)
        } else if (xa == 0 && ya == 1) || (xa == 3 && ya == 0) {
            affine_down_nums(pn, qn, d, e)
        } else if (xa == 0 && ya == 0) || (xa == 3 && ya == 1) {
            affine_down_nums(pn, e - qn, d, e)
        } else if (xa == 2 && ya == 1) || (xa == 5 && ya == 0) {
            affine_up_nums(pn, qn, d, e)
        } else if (xa == 2 && ya == 0) || (xa == 5 && ya == 1) {
            affine_up_nums(pn, e - qn, d, e)
        } else {
            (0, 0)
        }
    } else {
        if (xa == 2 && ya == 1) || (xa == 5 && ya == 0) {
            direct_nums(pn + d, qn, d, e)
        } else if (xa == 2 && ya == 0) || (xa == 5 && ya == 1) {
            direct_nums(pn + d, e - qn, d, e)
        } else if (xa == 1 && ya == 1) || (xa == 4 && ya == 0) {
            affine_down_nums(pn + d, qn, d, e)
        } else if (xa == 1 && ya == 0) || (xa == 4 && ya == 1) {
            affine_down_nums(pn + d, e - qn, d, e)
        } else if (xa == 3 && ya == 1) || (xa == 0 && ya == 0) {
            affine_up_nums(pn + d, qn, d, e)
        } else if (xa == 3 && ya == 0) || (xa == 0 && ya == 1) {
            affine_up_nums(pn + d, e - qn, d, e)
        } else {
            (0, 0)
        }
    }
}

/// Wallpaper group P3m1 over the unit square.
pub open spec fn spec_p3m1(xn: int, xd: int, yn: int, yd: int) -> ((int, int), (int, int)) {
    let nm = p3m1_nums(xn, xd, yn, yd);
    ((nm.0, 4 * xd * yd), (nm.1, 4 * xd * yd))
}

/// Fold a fraction pair across the vertical midline, keeping the left
/// half: `x` strictly beyond the midpoint becomes `1 - x`.
pub open spec fn fold_left(p: ((int, int), (int, int))) -> ((int, int), (int, int)) {
    if 2 * p.0.0 > p.0.1 {
        ((p.0.1 - p.0.0, p.0.1), p.1)
    } else {
        p
    }
}

/// Fold a fraction pair across the vertical midline, keeping the right
/// half: `x` strictly below the midpoint becomes `1 - x`.
pub open spec fn fold_right(p: ((int, int), (int, int))) -> ((int, int), (int, int)) {
    if 2 * p.0.0 < p.0.1 {
        ((p.0.1 - p.0.0, p.0.1), p.1)
    } else {
        p
    }
}

/// Fold a fraction pair across the horizontal midline, keeping the
/// upper half.
pub open spec fn fold_upper(p: ((int, int), (int, int))) -> ((int, int), (int, int)) {
    if 2 * p.1.0 > p.1.1 {
        (p.0, (p.1.1 - p.1.0, p.1.1))
    } else {
        p
    }
}

/// Fold a fraction pair across the horizontal midline, keeping the
/// lower half.
pub open spec fn fold_lower(p: ((int, int), (int, int))) -> ((int, int), (int, int)) {
    if 2 * p.1.0 < p.1.1 {
        (p.0, (p.1.1 - p.1.0, p.1.1))
    } else {
        p
    }
}

/// Wallpaper group P6m: p3m1 restricted to the left half of its source
/// triangle.
pub open spec fn spec_p6m(xn: int, xd: int, yn: int, yd: int) -> ((int, int), (int, int)) {
    fold_left(spec_p3m1(xn, xd, yn, yd))
}

/// Wallpaper group P6m, alternative definition: p3m1 restricted to the
/// right half of its source triangle.
pub open spec fn spec_p6malt(xn: int, xd: int, yn: int, yd: int) -> ((int, int), (int, int)) {
    fold_right(spec_p3m1(xn, xd, yn, yd))
}

/// Wallpaper group P3m1 rotated so the source triangle hangs off the
/// left edge: `p3m1(y, 1 - x)` with the result swapped to `(1 - ry, rx)`.
pub open spec fn spec_p3m1alt1(xn: int, xd: int, yn: int, yd: int) -> ((int, int), (int, int)) {
    let r = spec_p3m1(yn, yd, xd - xn, xd);
    ((r.1.1 - r.1.0, r.1.1), r.0)
}

/// Wallpaper group P3m1 rotated so the source triangle hangs off the
/// right edge: `p3m1(y, x)` with the result swapped to `(ry, rx)`.
pub open spec fn spec_p3m1alt2(xn: int, xd: int, yn: int, yd: int) -> ((int, int), (int, int)) {
    let r = spec_p3m1(yn, yd, xn, xd);
    (r.1, r.0)
}

/// Wallpaper group P6m over the left-edge triangle, upper half.
pub open spec fn spec_p6malt1a(xn: int, xd: int, yn: int, yd: int) -> ((int, int), (int, int)) {
    fold_upper(spec_p3m1alt1(xn, xd, yn, yd))
}

/// Wallpaper group P6m over the left-edge triangle, lower half.
pub open spec fn spec_p6malt1b(xn: int, xd: int, yn: int, yd: int) -> ((int, int), (int, int)) {
    fold_lower(spec_p3m1alt1(xn, xd, yn, yd))
}

/// Wallpaper group P6m over the right-edge triangle, upper half.
pub open spec fn spec_p6malt2a(xn: int, xd: int, yn: int, yd: int) -> ((int, int), (int, int)) {
    fold_upper(spec_p3m1alt2(xn, xd, yn, yd))
}

/// Wallpaper group P6m over the right-edge triangle, lower half.
pub open spec fn spec_p6malt2b(xn: int, xd: int, yn: int, yd: int) -> ((int, int), (int, int)) {
    fold_lower(spec_p3m1alt2(xn, xd, yn, yd))
}

/// The twelve wallpaper-group remappers, all of them guaranteed to
/// produce seamless tiles from arbitrary source content.
#[derive(Clone, Copy, PartialEq, Eq, Structural, Debug)]
pub enum WallpaperGroup {
    Pmm,
    P4m,
    P4mAlt,
    P3m1,
    P6m,
    P6mAlt,
    P3m1Alt1,
    P3m1Alt2,
    P6mAlt1a,
    P6mAlt1b,
    P6mAlt2a,
    P6mAlt2b,
}

/// The remap computed by each group function.
pub open spec fn spec_remap(g: WallpaperGroup, xn: int, xd: int, yn: int, yd: int) -> (
    (int, int),
    (int, int),
) {
    match g {
        WallpaperGroup::Pmm => spec_pmm(xn, xd, yn, yd),
        WallpaperGroup::P4m => spec_p4m(xn, xd, yn, yd),
        WallpaperGroup::P4mAlt => spec_p4malt(xn, xd, yn, yd),
        WallpaperGroup::P3m1 => spec_p3m1(xn, xd, yn, yd),
        WallpaperGroup::P6m => spec_p6m(xn, xd, yn, yd),
        WallpaperGroup::P6mAlt => spec_p6malt(xn, xd, yn, yd),
        WallpaperGroup::P3m1Alt1 => spec_p3m1alt1(xn, xd, yn, yd),
        WallpaperGroup::P3m1Alt2 => spec_p3m1alt2(xn, xd, yn, yd),
        WallpaperGroup::P6mAlt1a => spec_p6malt1a(xn, xd, yn, yd),
        WallpaperGroup::P6mAlt1b => spec_p6malt1b(xn, xd, yn, yd),
        WallpaperGroup::P6mAlt2a => spec_p6malt2a(xn, xd, yn, yd),
        WallpaperGroup::P6mAlt2b => spec_p6malt2b(xn, xd, yn, yd),
    }
}

/// The specification a remapper's arguments must meet: unit-interval
/// fractions whose denominators leave headroom for exact arithmetic.
pub open spec fn remap_pre(x: Frac, y: Frac) -> bool {
    x.is_unit() && y.is_unit() && x.den <= REMAP_DEN_LIMIT && y.den <= REMAP_DEN_LIMIT
}

/// What every executable remapper ensures: the result equals its
/// specification, and both coordinates stay inside the unit square.
pub open spec fn remap_post(r: (Frac, Frac), s: ((int, int), (int, int))) -> bool {
    frac_pair_is(r, s) && r.0.is_unit() && r.1.is_unit()
}

proof fn lemma_prod_bound(a: int, b: int, ab: int, bb: int) by (nonlinear_arith)
    requires
        0 <= a <= ab,
        0 <= b <= bb,
    ensures
        0 <= a * b <= ab * bb,
{
}

/// Wallpaper group Pmm.  The upper-left quarter of the source appears
/// reflected into all four quadrants of the tile.
pub fn pmm(x: Frac, y: Frac) -> (r: (Frac, Frac))
    requires
        remap_pre(x, y),
    ensures
        remap_post(r, spec_pmm(x.num as int, x.den as int, y.num as int, y.den as int)),
{
    let rx = if 2 * x.num > x.den {
        Frac { num: 2 * (x.den - x.num), den: x.den }
    } else {
        Frac { num: 2 * x.num, den: x.den }
    };
    let ry = if 2 * y.num >= y.den {
        Frac { num: 2 * (y.den - y.num), den: y.den }
    } else {
        Frac { num: 2 * y.num, den: y.den }
    };
    (rx, ry)
}

/// Wallpaper group P4m.  The source triangle spans the upper-left,
/// lower-left and lower-right corners of the upper-left quarter.
pub fn p4m(x: Frac, y: Frac) -> (r: (Frac, Frac))
    requires
        remap_pre(x, y),
    ensures
        remap_post(r, spec_p4m(x.num as int, x.den as int, y.num as int, y.den as int)),
{
    let (rx, ry) = pmm(x, y);
    proof {
        lemma_prod_bound(rx.num as int, ry.den as int, REMAP_DEN_LIMIT as int, REMAP_DEN_LIMIT as int);
        lemma_prod_bound(ry.num as int, rx.den as int, REMAP_DEN_LIMIT as int, REMAP_DEN_LIMIT as int);
    }
    if rx.num * ry.den > ry.num * rx.den {
        (ry, rx)
    } else {
        (rx, ry)
    }
}

/// Wallpaper group P4m, alternative orientation.  The source triangle
/// spans the upper-left, upper-right and lower-right corners of the
/// upper-left quarter.
pub fn p4malt(x: Frac, y: Frac) -> (r: (Frac, Frac))
    requires
        remap_pre(x, y),
    ensures
        remap_post(r, spec_p4malt(x.num as int, x.den as int, y.num as int, y.den as int)),
{
    let (rx, ry) = pmm(x, y);
    proof {
        lemma_prod_bound(rx.num as int, ry.den as int, REMAP_DEN_LIMIT as int, REMAP_DEN_LIMIT as int);
        lemma_prod_bound(ry.num as int, rx.den as int, REMAP_DEN_LIMIT as int, REMAP_DEN_LIMIT as int);
    }
    if rx.num * ry.den < ry.num * rx.den {
        (ry, rx)
    } else {
        (rx, ry)
    }
}

proof fn lemma_cell_products(a: int, b: int, d: int, e: int) by (nonlinear_arith)
    requires
        1 <= d <= 0x10000000,
        1 <= e <= 0x10000000,
        0 <= a <= 2 * d,
        0 <= b <= e,
    ensures
        1 <= d * e <= 0x100000000000000,
        0 <= a * e <= 0x200000000000000,
        0 <= b * d <= 0x100000000000000,
        e * a == a * e,
        2 * e * a == 2 * (a * e),
        4 * d * b == 4 * (b * d),
        4 * d * e == 4 * (d * e),
        2 * d * e == 2 * (d * e),
        2 * a * e == 2 * (a * e),
        2 * b * d == 2 * (b * d),
        3 * b * d == 3 * (b * d),
        0 <= 2 * e * a <= 4 * (d * e),
        0 <= 4 * d * b <= 4 * (d * e),
{
}

/// Position within a sixth stays between 0 and its denominator, and the
/// sixth index never overshoots the coordinate.
proof fn lemma_sixth_rem_bounds(n: int, d: int)
    requires
        1 <= d,
        0 <= n <= d,
    ensures
        0 <= sixth_rem(n, d) <= d,
        sixth_index(n, d) * d <= 6 * n,
{
    vstd::arithmetic::div_mod::lemma_remainder(6 * n, d);
    if 6 * n / d >= 5 {
        lemma_mul_inequality(5, 6 * n / d, d);
    }
}

/// One p3m1 cell remapped directly: `(a/(2d), b/e)` over `4 d e`.
fn direct_case(a: u64, b: u64, d: u64, e: u64) -> (r: (Frac, Frac))
    requires
        1 <= d <= REMAP_DEN_LIMIT,
        1 <= e <= REMAP_DEN_LIMIT,
        a <= 2 * d,
        b <= e,
    ensures
        r.0.num == direct_nums(a as int, b as int, d as int, e as int).0,
        r.1.num == direct_nums(a as int, b as int, d as int, e as int).1,
        r.0.den == 4 * (d as int) * (e as int),
        r.1.den == 4 * (d as int) * (e as int),
        r.0.is_unit(),
        r.1.is_unit(),
{
    proof {
        lemma_cell_products(a as int, b as int, d as int, e as int);
    }
    let den: u64 = 4 * (d * e);
    let ea: u64 = a * e;
    let bd: u64 = b * d;
    (Frac { num: 2 * ea, den }, Frac { num: 4 * bd, den })
}

/// One p3m1 cell remapped by the descending affine map
/// `(1 - xp/2 - 3 yp/4, 1 - xp + yp/2)`, clamped to the unit square.
fn affine_down_case(a: u64, b: u64, d: u64, e: u64) -> (r: (Frac, Frac))
    requires
        1 <= d <= REMAP_DEN_LIMIT,
        1 <= e <= REMAP_DEN_LIMIT,
        a <= 2 * d,
        b <= e,
    ensures
        r.0.num == affine_down_nums(a as int, b as int, d as int, e as int).0,
        r.1.num == affine_down_nums(a as int, b as int, d as int, e as int).1,
        r.0.den == 4 * (d as int) * (e as int),
        r.1.den == 4 * (d as int) * (e as int),
        r.0.is_unit(),
        r.1.is_unit(),
{
    proof {
        lemma_cell_products(a as int, b as int, d as int, e as int);
    }
    let f: i64 = 4 * ((d as i64) * (e as i64));
    let ae: i64 = (a as i64) * (e as i64);
    let bd: i64 = (b as i64) * (d as i64);
    let nx: i64 = f - ae - 3 * bd;
    let ny: i64 = f - 2 * ae + 2 * bd;
    let cx: u64 = if nx < 0 {
        0
    } else if nx > f {
        f as u64
    } else {
        nx as u64
    };
    let cy: u64 = if ny < 0 {
        0
    } else if ny > f {
        f as u64
    } else {
        ny as u64
    };
    (Frac { num: cx, den: f as u64 }, Frac { num: cy, den: f as u64 })
}

/// One p3m1 cell remapped by the ascending affine map
/// `(1/2 - xp/2 + 3 yp/4, xp + yp/2)`, clamped to the unit square.
fn affine_up_case(a: u64, b: u64, d: u64, e: u64) -> (r: (Frac, Frac))
    requires
        1 <= d <= REMAP_DEN_LIMIT,
        1 <= e <= REMAP_DEN_LIMIT,
        a <= 2 * d,
        b <= e,
    ensures
        r.0.num == affine_up_nums(a as int, b as int, d as int, e as int).0,
        r.1.num == affine_up_nums(a as int, b as int, d as int, e as int).1,
        r.0.den == 4 * (d as int) * (e as int),
        r.1.den == 4 * (d as int) * (e as int),
        r.0.is_unit(),
        r.1.is_unit(),
{
    proof {
        lemma_cell_products(a as int, b as int, d as int, e as int);
    }
    let f: i64 = 4 * ((d as i64) * (e as i64));
    let ae: i64 = (a as i64) * (e as i64);
    let bd: i64 = (b as i64) * (d as i64);
    let nx: i64 = f / 2 - ae + 3 * bd;
    let ny: i64 = 2 * ae + 2 * bd;
    let cx: u64 = if nx < 0 {
        0
    } else if nx > f {
        f as u64
    } else {
        nx as u64
    };
    let cy: u64 = if ny < 0 {
        0
    } else if ny > f {
        f as u64
    } else {
        ny as u64
    };
    (Frac { num: cx, den: f as u64 }, Frac { num: cy, den: f as u64 })
}

/// Wallpaper group P3m1.  The source triangle is isosceles: its base is
/// the bottom edge of the source rectangle and its apex the rectangle's
/// upper midpoint; folding it reconstructs a hexagonal tiling.
pub fn p3m1(x: Frac, y: Frac) -> (r: (Frac, Frac))
    requires
        remap_pre(x, y),
    ensures
        remap_post(r, spec_p3m1(x.num as int, x.den as int, y.num as int, y.den as int)),
{
    let d = x.den;
    let e = y.den;
    let sixn: u64 = 6 * x.num;
    let q: u64 = sixn / d;
    let xa: u64 = if q < 5 {
        q
    } else {
        5
    };
    proof {
        lemma_sixth_rem_bounds(x.num as int, d as int);
    }
    let pn: u64 = sixn - xa * d;
    let ya: u64 = if 2 * y.num < e {
        0
    } else {
        1
    };
    let qn: u64 = if 2 * y.num < e {
        2 * y.num
    } else {
        2 * y.num - e
    };
    proof {
        lemma_cell_products(pn as int, qn as int, d as int, e as int);
        lemma_cell_products(qn as int, pn as int, e as int, d as int);
    }
    let lh: bool = if (xa + ya) % 2 == 0 {
        pn * e + qn * d < d * e
    } else {
        pn * e < qn * d
    };
    if !lh {
        if (xa == 1 && ya == 1) || (xa == 4 && ya == 0) {
            direct_case(pn, qn, d, e)
        } else if (xa == 1 && ya == 0) || (xa == 4 && ya == 1) {
            direct_case(pn, e - qn, d, e)
        } else if (xa == 0 && ya == 1) || (xa == 3 && ya == 0) {
            affine_down_case(pn, qn, d, e)
        } else if (xa == 0 && ya == 0) || (xa == 3 && ya == 1) {
            affine_down_case(pn, e - qn, d, e)
        } else if (xa == 2 && ya == 1) || (xa == 5 && ya == 0) {
            affine_up_case(pn, qn, d, e)
        } else {
            affine_up_case(pn, e - qn, d, e)
        }
    } else {
        if (xa == 2 && ya == 1) || (xa == 5 && ya == 0) {
            direct_case(pn + d, qn, d, e)
        } else if (xa == 2 && ya == 0) || (xa == 5 && ya == 1) {
            direct_case(pn + d, e - qn, d, e)
        } else if (xa == 1 && ya == 1) || (xa == 4 && ya == 0) {
            affine_down_case(pn + d, qn, d, e)
        } else if (xa == 1 && ya == 0) || (xa == 4 && ya == 1) {
            affine_down_case(pn + d, e - qn, d, e)
        } else if (xa == 3 && ya == 1) || (xa == 0 && ya == 0) {
            affine_up_case(pn + d, qn, d, e)
        } else {
            affine_up_case(pn + d, e - qn, d, e)
        }
    }
}

/// Wallpaper group P6m: the p3m1 remap restricted to the left half of
/// its source triangle.
pub fn p6m(x: Frac, y: Frac) -> (r: (Frac, Frac))
    requires
        remap_pre(x, y),
    ensures
        remap_post(r, spec_p6m(x.num as int, x.den as int, y.num as int, y.den as int)),
{
    proof {
        lemma_cell_products(0, 0, x.den as int, y.den as int);
    }
    let (rx, ry) = p3m1(x, y);
    if 2 * rx.num > rx.den {
        (Frac { num: rx.den - rx.num, den: rx.den }, ry)
    } else {
        (rx, ry)
    }
}

/// Wallpaper group P6m, alternative definition: the p3m1 remap
/// restricted to the right half of its source triangle.
pub fn p6malt(x: Frac, y: Frac) -> (r: (Frac, Frac))
    requires
        remap_pre(x, y),
    ensures
        remap_post(r, spec_p6malt(x.num as int, x.den as int, y.num as int, y.den as int)),
{
    proof {
        lemma_cell_products(0, 0, x.den as int, y.den as int);
    }
    let (rx, ry) = p3m1(x, y);
    if 2 * rx.num < rx.den {
        (Frac { num: rx.den - rx.num, den: rx.den }, ry)
    } else {
        (rx, ry)
    }
}

/// Wallpaper group P3m1 with the source triangle against the left edge
/// of the source rectangle.
pub fn p3m1alt1(x: Frac, y: Frac) -> (r: (Frac, Frac))
    requires
        remap_pre(x, y),
    ensures
        remap_post(r, spec_p3m1alt1(x.num as int, x.den as int, y.num as int, y.den as int)),
{
    let (rx, ry) = p3m1(y, x.one_minus());
    (ry.one_minus(), rx)
}

/// Wallpaper group P3m1 with the source triangle against the right edge
/// of the source rectangle.
pub fn p3m1alt2(x: Frac, y: Frac) -> (r: (Frac, Frac))
    requires
        remap_pre(x, y),
    ensures
        remap_post(r, spec_p3m1alt2(x.num as int, x.den as int, y.num as int, y.den as int)),
{
    let (rx, ry) = p3m1(y, x);
    (ry, rx)
}

/// Wallpaper group P6m over the left-edge triangle, upper half.
pub fn p6malt1a(x: Frac, y: Frac) -> (r: (Frac, Frac))
    requires
        remap_pre(x, y),
    ensures
        remap_post(r, spec_p6malt1a(x.num as int, x.den as int, y.num as int, y.den as int)),
{
    proof {
        lemma_cell_products(0, 0, y.den as int, x.den as int);
    }
    let (rx, ry) = p3m1alt1(x, y);
    if 2 * ry.num > ry.den {
        (rx, Frac { num: ry.den - ry.num, den: ry.den })
    } else {
        (rx, ry)
    }
}

/// Wallpaper group P6m over the left-edge triangle, lower half.
pub fn p6malt1b(x: Frac, y: Frac) -> (r: (Frac, Frac))
    requires
        remap_pre(x, y),
    ensures
        remap_post(r, spec_p6malt1b(x.num as int, x.den as int, y.num as int, y.den as int)),
{
    proof {
        lemma_cell_products(0, 0, y.den as int, x.den as int);
    }
    let (rx, ry) = p3m1alt1(x, y);
    if 2 * ry.num < ry.den {
        (rx, Frac { num: ry.den - ry.num, den: ry.den })
    } else {
        (rx, ry)
    }
}

/// Wallpaper group P6m over the right-edge triangle, upper half.
pub fn p6malt2a(x: Frac, y: Frac) -> (r: (Frac, Frac))
    requires
        remap_pre(x, y),
    ensures
        remap_post(r, spec_p6malt2a(x.num as int, x.den as int, y.num as int, y.den as int)),
{
    proof {
        lemma_cell_products(0, 0, y.den as int, x.den as int);
    }
    let (rx, ry) = p3m1alt2(x, y);
    if 2 * ry.num > ry.den {
        (rx, Frac { num: ry.den - ry.num, den: ry.den })
    } else {
        (rx, ry)
    }
}

/// Wallpaper group P6m over the right-edge triangle, lower half.
pub fn p6malt2b(x: Frac, y: Frac) -> (r: (Frac, Frac))
    requires
        remap_pre(x, y),
    ensures
        remap_post(r, spec_p6malt2b(x.num as int, x.den as int, y.num as int, y.den as int)),
{
    proof {
        lemma_cell_products(0, 0, y.den as int, x.den as int);
    }
    let (rx, ry) = p3m1alt2(x, y);
    if 2 * ry.num < ry.den {
        (rx, Frac { num: ry.den - ry.num, den: ry.den })
    } else {
        (rx, ry)
    }
}

/// Applies the chosen wallpaper-group function to a normalized
/// destination coordinate.
pub fn remap(g: WallpaperGroup, x: Frac, y: Frac) -> (r: (Frac, Frac))
    requires
        remap_pre(x, y),
    ensures
        remap_post(r, spec_remap(g, x.num as int, x.den as int, y.num as int, y.den as int)),
{
    match g {
        WallpaperGroup::Pmm => pmm(x, y),
        WallpaperGroup::P4m => p4m(x, y),
        WallpaperGroup::P4mAlt => p4malt(x, y),
        WallpaperGroup::P3m1 => p3m1(x, y),
        WallpaperGroup::P6m => p6m(x, y),
        WallpaperGroup::P6mAlt => p6malt(x, y),
        WallpaperGroup::P3m1Alt1 => p3m1alt1(x, y),
        WallpaperGroup::P3m1Alt2 => p3m1alt2(x, y),
        WallpaperGroup::P6mAlt1a => p6malt1a(x, y),
        WallpaperGroup::P6mAlt1b => p6malt1b(x, y),
        WallpaperGroup::P6mAlt2a => p6malt2a(x, y),
        WallpaperGroup::P6mAlt2b => p6malt2b(x, y),
    }
}

proof fn lemma_cell_nums_unit(a: int, b: int, d: int, e: int) by (nonlinear_arith)
    requires
        1 <= d,
        1 <= e,
        0 <= a <= 2 * d,
        0 <= b <= e,
    ensures
        0 <= 2 * e * a <= 4 * d * e,
        0 <= 4 * d * b <= 4 * d * e,
        0 < 4 * d * e,
        4 * d * e == 4 * (d * e),
{
}

/// The p3m1 remap stays in the unit square.
proof fn lemma_p3m1_unit(xn: int, xd: int, yn: int, yd: int)
    requires
        unit_frac(xn, xd),
        unit_frac(yn, yd),
    ensures
        unit_pair(spec_p3m1(xn, xd, yn, yd)),
{
    lemma_sixth_rem_bounds(xn, xd);
    let pn = sixth_rem(xn, xd);
    let qn = half_rem(yn, yd);
    lemma_cell_nums_unit(pn, qn, xd, yd);
    lemma_cell_nums_unit(pn, yd - qn, xd, yd);
    lemma_cell_nums_unit(pn + xd, qn, xd, yd);
    lemma_cell_nums_unit(pn + xd, yd - qn, xd, yd);
}

/// LAW — unit-square closure.  Every one of the twelve wallpaper-group
/// functions maps every point of the unit square back into the unit
/// square: no remapped coordinate ever overflows past it.
pub proof fn lemma_remap_in_unit_square(g: WallpaperGroup, xn: int, xd: int, yn: int, yd: int)
    requires
        unit_frac(xn, xd),
        unit_frac(yn, yd),
    ensures
        unit_pair(spec_remap(g, xn, xd, yn, yd)),
{
    match g {
        WallpaperGroup::Pmm => {},
        WallpaperGroup::P4m => {},
        WallpaperGroup::P4mAlt => {},
        WallpaperGroup::P3m1 => {
            lemma_p3m1_unit(xn, xd, yn, yd);
        },
        WallpaperGroup::P6m => {
            lemma_p3m1_unit(xn, xd, yn, yd);
        },
        WallpaperGroup::P6mAlt => {
            lemma_p3m1_unit(xn, xd, yn, yd);
        },
        WallpaperGroup::P3m1Alt1 => {
            lemma_p3m1_unit(yn, yd, xd - xn, xd);
        },
        WallpaperGroup::P3m1Alt2 => {
            lemma_p3m1_unit(yn, yd, xn, xd);
        },
        WallpaperGroup::P6mAlt1a => {
            lemma_p3m1_unit(yn, yd, xd - xn, xd);
        },
        WallpaperGroup::P6mAlt1b => {
            lemma_p3m1_unit(yn, yd, xd - xn, xd);
        },
        WallpaperGroup::P6mAlt2a => {
            lemma_p3m1_unit(yn, yd, xn, xd);
        },
        WallpaperGroup::P6mAlt2b => {
            lemma_p3m1_unit(yn, yd, xn, xd);
        },
    }
}

/// LAW — mirror symmetry of pmm.  Reflecting the input about either
/// midline of the unit square leaves the remapped coordinate unchanged,
/// so symmetric destination points sample the same source point.
pub proof fn lemma_pmm_mirror(xn: int, xd: int, yn: int, yd: int)
    requires
        unit_frac(xn, xd),
        unit_frac(yn, yd),
    ensures
        spec_pmm(xd - xn, xd, yn, yd) == spec_pmm(xn, xd, yn, yd),
        spec_pmm(xn, xd, yd - yn, yd) == spec_pmm(xn, xd, yn, yd),
{
}

/// LAW — mirror symmetry of the diagonal-fold groups.  The two p4m
/// variants factor through pmm, so they inherit its mirror symmetry.
pub proof fn lemma_p4m_mirror(xn: int, xd: int, yn: int, yd: int)
    requires
        unit_frac(xn, xd),
        unit_frac(yn, yd),
    ensures
        spec_p4m(xd - xn, xd, yn, yd) == spec_p4m(xn, xd, yn, yd),
        spec_p4m(xn, xd, yd - yn, yd) == spec_p4m(xn, xd, yn, yd),
        spec_p4malt(xd - xn, xd, yn, yd) == spec_p4malt(xn, xd, yn, yd),
        spec_p4malt(xn, xd, yd - yn, yd) == spec_p4malt(xn, xd, yn, yd),
{
    lemma_pmm_mirror(xn, xd, yn, yd);
}

/// Product facts needed to line up the dispatch at the two edges of a
/// seam.
proof fn lemma_seam_products(a: int, b: int, c: int) by (nonlinear_arith)
    requires
        0 <= a,
        1 <= b,
        1 <= c,
    ensures
        a * b == b * a,
        a < c ==> a * b < c * b,
        0 <= a * b,
        a >= 1 ==> a * b >= 1,
        a == 0 ==> a * b == 0,
{
}

/// Constant-scaled products rewritten over the base product.
proof fn lemma_seam_scaled(d: int, e: int) by (nonlinear_arith)
    requires
        1 <= d,
        1 <= e,
    ensures
        2 * d * e == 2 * (d * e),
        4 * d * e == 4 * (d * e),
        3 * e * d == 3 * (d * e),
        2 * e * d == 2 * (d * e),
        0 <= d * e,
{
}

/// The left and right edges of the unit square remap identically under
/// p3m1.
proof fn lemma_p3m1_seam_x(d: int, m: int, e: int)
    requires
        1 <= d,
        unit_frac(m, e),
    ensures
        spec_p3m1(0, d, m, e) == spec_p3m1(d, d, m, e),
{
    vstd::arithmetic::div_mod::lemma_div_of0(d);
    vstd::arithmetic::div_mod::lemma_div_multiples_vanish(6, d);
    assert(6 * 0 == 0);
    assert(sixth_index(0, d) == 0);
    assert(sixth_rem(0, d) == 0);
    lemma_seam_scaled(d, e);
    lemma_seam_products(sixth_rem(0, d), e, 2);
    assert(6 * d == d * 6);
    assert(sixth_index(d, d) == 5);
    assert(sixth_rem(d, d) == 6 * d - 5 * d);
    let ya = half_index(m, e);
    let qn = half_rem(m, e);
    lemma_seam_products(qn, d, e);
    lemma_seam_products(d, e, 2);
    lemma_seam_products(e, d, 2);
    lemma_seam_products(e - qn, d, e);
    if ya == 0 {
        assert(qn < e);
        assert(qn * d < e * d);
    } else {
        if qn == 0 {
            assert(qn * d == 0);
        }
    }
}

/// The top and bottom edges of the unit square remap identically under
/// p3m1.
proof fn lemma_p3m1_seam_y(n: int, d: int, e: int)
    requires
        1 <= e,
        unit_frac(n, d),
    ensures
        spec_p3m1(n, d, 0, e) == spec_p3m1(n, d, e, e),
{
    lemma_sixth_rem_bounds(n, d);
    assert(half_index(0, e) == 0 && half_rem(0, e) == 0);
    assert(half_index(e, e) == 1 && half_rem(e, e) == e);
    let pn = sixth_rem(n, d);
    lemma_seam_products(pn, e, d + 1);
    lemma_seam_products(e, d, 2);
    lemma_seam_products(d, e, 2);
    if pn == 0 {
        assert(pn * e == 0);
    }
}

/// LAW — seamless tiling.  For every one of the twelve group functions,
/// opposite edges of the unit square remap to the same source point:
/// the left edge agrees with the right edge and the top edge with the
/// bottom edge, so adjacent tiles of the remapped image join without a
/// visible seam.
pub proof fn lemma_remap_seamless(g: WallpaperGroup, xn: int, xd: int, yn: int, yd: int)
    requires
        unit_frac(xn, xd),
        unit_frac(yn, yd),
    ensures
        spec_remap(g, 0, xd, yn, yd) == spec_remap(g, xd, xd, yn, yd),
        spec_remap(g, xn, xd, 0, yd) == spec_remap(g, xn, xd, yd, yd),
{
    match g {
        WallpaperGroup::Pmm => {},
        WallpaperGroup::P4m => {},
        WallpaperGroup::P4mAlt => {},
        WallpaperGroup::P3m1 => {
            lemma_p3m1_seam_x(xd, yn, yd);
            lemma_p3m1_seam_y(xn, xd, yd);
        },
        WallpaperGroup::P6m => {
            lemma_p3m1_seam_x(xd, yn, yd);
            lemma_p3m1_seam_y(xn, xd, yd);
        },
        WallpaperGroup::P6mAlt => {
            lemma_p3m1_seam_x(xd, yn, yd);
            lemma_p3m1_seam_y(xn, xd, yd);
        },
        WallpaperGroup::P3m1Alt1 => {
            lemma_p3m1_seam_y(yn, yd, xd);
            lemma_p3m1_seam_x(yd, xd - xn, xd);
        },
        WallpaperGroup::P3m1Alt2 => {
            lemma_p3m1_seam_y(yn, yd, xd);
            lemma_p3m1_seam_x(yd, xn, xd);
        },
        WallpaperGroup::P6mAlt1a => {
            lemma_p3m1_seam_y(yn, yd, xd);
            lemma_p3m1_seam_x(yd, xd - xn, xd);
        },
        WallpaperGroup::P6mAlt1b => {
            lemma_p3m1_seam_y(yn, yd, xd);
            lemma_p3m1_seam_x(yd, xd - xn, xd);
        },
        WallpaperGroup::P6mAlt2a => {
            lemma_p3m1_seam_y(yn, yd, xd);
            lemma_p3m1_seam_x(yd, xn, xd);
        },
        WallpaperGroup::P6mAlt2b => {
            lemma_p3m1_seam_y(yn, yd, xd);
            lemma_p3m1_seam_x(yd, xn, xd);
        },
    }
}

/// Doubling every quantity of a p3m1 cell multiplies each of its
/// output terms by four.
proof fn lemma_double_products(a: int, b: int, d: int, e: int) by (nonlinear_arith)
    requires
        0 <= a,
        0 <= b,
        1 <= d,
        1 <= e,
    ensures
        (2 * a) * (2 * e) == 4 * (a * e),
        (2 * b) * (2 * d) == 4 * (b * d),
        (2 * d) * (2 * e) == 4 * (d * e),
        2 * (2 * e) * (2 * a) == 4 * (2 * e * a),
        4 * (2 * d) * (2 * b) == 4 * (4 * d * b),
        4 * (2 * d) * (2 * e) == 4 * (4 * d * e),
        2 * (2 * d) * (2 * e) == 4 * (2 * d * e),
        3 * (2 * b) * (2 * d) == 4 * (3 * b * d),
        2 * (2 * a) * (2 * e) == 4 * (2 * a * e),
        2 * (2 * b) * (2 * d) == 4 * (2 * b * d),
        0 <= 4 * (d * e),
{
}

/// The sixth dissection of the half-shifted coordinate: the sixth
/// index moves three cells over (wrapping), the position within the
/// sixth doubles with the denominator.
proof fn lemma_sixth_shift(n: int, d: int)
    requires
        1 <= d,
        0 <= n < d,
    ensures
        2 * n < d ==> sixth_index(2 * n + d, 2 * d) == sixth_index(n, d) + 3 && sixth_rem(
            2 * n + d,
            2 * d,
        ) == 2 * sixth_rem(n, d) && sixth_index(n, d) <= 2,
        2 * n >= d ==> sixth_index(2 * n - d, 2 * d) == sixth_index(n, d) - 3 && sixth_rem(
            2 * n - d,
            2 * d,
        ) == 2 * sixth_rem(n, d) && sixth_index(n, d) >= 3,
{
    lemma_fundamental_div_mod(6 * n, d);
    vstd::arithmetic::div_mod::lemma_mod_bound(6 * n, d);
    let q = 6 * n / d;
    let r = 6 * n % d;
    assert(q <= 5 && (2 * n < d ==> q <= 2) && (2 * n >= d ==> q >= 3) && d * q == q * d)
        by (nonlinear_arith)
        requires
            6 * n == d * q + r,
            0 <= r < d,
            1 <= d,
            0 <= n < d,
    ;
    if 2 * n < d {
        assert(6 * (2 * n + d) == (q + 3) * (2 * d) + 2 * r) by (nonlinear_arith)
            requires
                6 * n == d * q + r,
        ;
        lemma_fundamental_div_mod_converse_div(6 * (2 * n + d), 2 * d, q + 3, 2 * r);
        assert((q + 3) * (2 * d) == 2 * d * (q + 3)) by (nonlinear_arith);
    } else {
        assert(6 * (2 * n - d) == (q - 3) * (2 * d) + 2 * r) by (nonlinear_arith)
            requires
                6 * n == d * q + r,
        ;
        lemma_fundamental_div_mod_converse_div(6 * (2 * n - d), 2 * d, q - 3, 2 * r);
        assert((q - 3) * (2 * d) == 2 * d * (q - 3)) by (nonlinear_arith);
    }
}

/// LAW — half-period translation of p3m1.  Shifting the input by half
/// a period along both axes, wrapping within the unit square, leaves
/// the remapped point unchanged: the hexagonal folding repeats under
/// the diagonal half translation.  The shifted input carries doubled
/// denominators, so the equal value appears over a four-fold
/// denominator.
pub proof fn lemma_p3m1_half_period(n: int, d: int, m: int, e: int)
    requires
        1 <= d,
        1 <= e,
        0 <= n < d,
        0 <= m < e,
    ensures
        ({
            let sx = if 2 * n < d {
                2 * n + d
            } else {
                2 * n - d
            };
            let sy = if 2 * m < e {
                2 * m + e
            } else {
                2 * m - e
            };
            let shifted = spec_p3m1(sx, 2 * d, sy, 2 * e);
            let base = spec_p3m1(n, d, m, e);
            &&& shifted.0.0 == 4 * base.0.0
            &&& shifted.0.1 == 4 * base.0.1
            &&& shifted.1.0 == 4 * base.1.0
            &&& shifted.1.1 == 4 * base.1.1
        }),
{
    lemma_sixth_shift(n, d);
    lemma_sixth_rem_bounds(n, d);
    let pn = sixth_rem(n, d);
    let qn = half_rem(m, e);
    lemma_double_products(pn, qn, d, e);
    lemma_double_products(pn, e - qn, d, e);
    lemma_double_products(pn + d, qn, d, e);
    lemma_double_products(pn + d, e - qn, d, e);
    assert((2 * pn) + 2 * d == 2 * (pn + d));
    assert((2 * e) - (2 * qn) == 2 * (e - qn));
}

} // verus!
