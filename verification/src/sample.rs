//! Bilinear sampling with wraparound, and the tile compositor.
//!
//! `imagept` fetches the color at a fractional, possibly out-of-range
//! coordinate of an image, treating the image as an infinite tiling.
//! `wallpaper_image` builds a new image by remapping every destination
//! pixel through a wallpaper-group function and sampling the source.
//!
//! Interpolation is done directly on stored (nonlinear sRGB) channel
//! values; no color-space conversion is performed.
use crate::basicrgbimage::BasicRgbImage;
use crate::basicrgbimage::black_pixel;
use crate::frac::Coord;
use crate::imageop::lemma_neg_mod;
use crate::frac::Frac;
use crate::remap::REMAP_DEN_LIMIT;
use crate::remap::WallpaperGroup;
use crate::remap::remap;
use crate::remap::spec_remap;
use vstd::arithmetic::div_mod::lemma_div_is_ordered;
use vstd::arithmetic::div_mod::lemma_div_multiples_vanish;
use vstd::arithmetic::div_mod::lemma_div_pos_is_pos;
use vstd::arithmetic::div_mod::lemma_mod_bound;
use vstd::arithmetic::div_mod::lemma_multiply_divide_lt;
use vstd::prelude::*;

verus! {

/// Upper bound on the denominators the sampler accepts: large enough
/// for any remapper output over image-sized inputs, small enough that
/// the interpolation arithmetic fits in 128 bits.
pub const SAMPLE_DEN_LIMIT: u64 = 0x400000000000000;

/// Upper bound on the magnitude of the source-rectangle corners the
/// compositor accepts.
pub const RECT_COORD_LIMIT: i64 = 0x80000000;

proof fn lemma_prod_bound(a: int, b: int, ab: int, bb: int) by (nonlinear_arith)
    requires
        0 <= a <= ab,
        0 <= b <= bb,
    ensures
        0 <= a * b <= ab * bb,
{
}

proof fn lemma_prod_abs_bound(a: int, b: int, ab: int, bb: int) by (nonlinear_arith)
    requires
        -ab <= a <= ab,
        0 <= b <= bb,
        0 <= ab,
    ensures
        -(ab * bb) <= a * b <= ab * bb,
{
}

/// The quotient of a remainder by the cell size stays below the cell
/// count, and division results keep their usual bounds.
proof fn lemma_wrap_bounds(r: int, den: int, m: int)
    requires
        1 <= den,
        1 <= m,
        0 <= r < den * m,
    ensures
        0 <= r / den < m,
        0 <= r % den < den,
{
    lemma_multiply_divide_lt(r, den, m);
    lemma_div_pos_is_pos(r, den);
    lemma_mod_bound(r, den);
}

/// The four bilinear weights are nonnegative and sum to the product of
/// the two denominators.
proof fn lemma_weights(tx: int, qx: int, ty: int, qy: int) by (nonlinear_arith)
    requires
        1 <= qx <= 0x400000000000000,
        1 <= qy <= 0x400000000000000,
        0 <= tx < qx,
        0 <= ty < qy,
    ensures
        (qx - tx) * (qy - ty) + tx * (qy - ty) + (qx - tx) * ty + tx * ty == qx * qy,
        0 <= (qx - tx) * (qy - ty) <= qx * qy,
        0 <= tx * (qy - ty) <= qx * qy,
        0 <= (qx - tx) * ty <= qx * qy,
        0 <= tx * ty <= qx * qy,
        1 <= qx * qy <= 0x100000000000000000000000000000,
{
}

proof fn lemma_scale_le_255(w: int, c: int) by (nonlinear_arith)
    requires
        0 <= w,
        0 <= c <= 255,
    ensures
        0 <= w * c <= 255 * w,
{
}

proof fn lemma_div_le_255(n: int, d: int)
    requires
        1 <= d,
        0 <= n <= 255 * d,
    ensures
        0 <= n / d <= 255,
{
    lemma_div_pos_is_pos(n, d);
    lemma_div_is_ordered(n, 255 * d, d);
    lemma_div_multiples_vanish(255, d);
    assert(255 * d == d * 255);
}

/// One channel of the bilinear blend: the four neighbors weighted by
/// the fractional offsets `tx / qx` and `ty / qy`, floored.  As in the
/// stored image layout, `tx` advances toward the second row and `ty`
/// toward the second column.
pub open spec fn bilerp_channel(
    c00: int,
    c01: int,
    c10: int,
    c11: int,
    tx: int,
    qx: int,
    ty: int,
    qy: int,
) -> int {
    ((qx - tx) * (qy - ty) * c00 + tx * (qy - ty) * c01 + (qx - tx) * ty * c10 + tx * ty * c11) / (
    qx * qy)
}

/// The color of the in-between point at `(xnum/xden, ynum/yden)` of the
/// image: coordinates are wrapped into range (the remainder is always
/// non-negative), the 2x2 neighborhood is fetched with wraparound on
/// the +1 neighbors, and each channel is interpolated independently and
/// floored.  A zero-area image yields black.
pub open spec fn spec_imagept<T: BasicRgbImage>(
    img: T,
    xnum: int,
    xden: int,
    ynum: int,
    yden: int,
) -> Seq<u8> {
    let w = img.img_width() as int;
    let h = img.img_height() as int;
    if w == 0 || h == 0 {
        black_pixel()
    } else {
        let xm = xnum % (xden * w);
        let ym = ynum % (yden * h);
        let xi = xm / xden;
        let yi = ym / yden;
        let tx = xm % xden;
        let ty = ym % yden;
        let xi1 = (xi + 1) % w;
        let yi1 = (yi + 1) % h;
        let c00 = img.img_pixel(xi, yi);
        let c01 = img.img_pixel(xi, yi1);
        let c10 = img.img_pixel(xi1, yi);
        let c11 = img.img_pixel(xi1, yi1);
        seq![
            bilerp_channel(
                c00[0] as int,
                c01[0] as int,
                c10[0] as int,
                c11[0] as int,
                tx,
                xden,
                ty,
                yden,
            ) as u8,
            bilerp_channel(
                c00[1] as int,
                c01[1] as int,
                c10[1] as int,
                c11[1] as int,
                tx,
                xden,
                ty,
                yden,
            ) as u8,
            bilerp_channel(
                c00[2] as int,
                c01[2] as int,
                c10[2] as int,
                c11[2] as int,
                tx,
                xden,
                ty,
                yden,
            ) as u8,
        ]
    }
}

/// Wraps `num / den` into `[0, m)` cells of size `den`: returns the
/// Euclidean remainder of `num` by `den * m`.
fn wrap_coord(num: i128, den: u64, m: u32) -> (r: i128)
    requires
        1 <= den <= SAMPLE_DEN_LIMIT,
        1 <= m,
        num > i128::MIN,
    ensures
        r == num as int % ((den as int) * (m as int)),
        0 <= r < (den as int) * (m as int),
{
    proof {
        lemma_prod_bound(den as int, m as int, SAMPLE_DEN_LIMIT as int, u32::MAX as int);
        assert(1 <= (den as int) * (m as int)) by (nonlinear_arith)
            requires
                1 <= den,
                1 <= m,
        ;
    }
    let md: i128 = (den as i128) * (m as i128);
    if num >= 0 {
        num % md
    } else {
        let t: i128 = (-num) % md;
        proof {
            lemma_neg_mod(num as int, md as int);
        }
        if t == 0 {
            0
        } else {
            md - t
        }
    }
}

/// Gets the color of the in-between pixel at the given fractional
/// point of the image, using bilinear interpolation with wraparound:
/// an out-of-bounds point is adjusted as though the image were part of
/// an infinite tiling.  Returns black when either dimension is zero.
pub fn imagept<T: BasicRgbImage>(image: &T, x: Coord, y: Coord) -> (r: [u8; 3])
    requires
        x.wf(),
        y.wf(),
        x.den <= SAMPLE_DEN_LIMIT,
        y.den <= SAMPLE_DEN_LIMIT,
        x.num > i128::MIN,
        y.num > i128::MIN,
    ensures
        r@ == spec_imagept(*image, x.num as int, x.den as int, y.num as int, y.den as int),
{
    let w = image.width();
    let h = image.height();
    if w == 0 || h == 0 {
        let r: [u8; 3] = [0, 0, 0];
        proof {
            assert(r@ =~= black_pixel());
        }
        return r;
    }
    let xm: i128 = wrap_coord(x.num, x.den, w);
    let ym: i128 = wrap_coord(y.num, y.den, h);
    proof {
        lemma_wrap_bounds(xm as int, x.den as int, w as int);
        lemma_wrap_bounds(ym as int, y.den as int, h as int);
    }
    let xi: u32 = (xm / (x.den as i128)) as u32;
    let yi: u32 = (ym / (y.den as i128)) as u32;
    let tx: u64 = (xm % (x.den as i128)) as u64;
    let ty: u64 = (ym % (y.den as i128)) as u64;
    let xi1: u32 = (xi + 1) % w;
    let yi1: u32 = (yi + 1) % h;
    let c00 = image.get_pixel(xi, yi);
    let c01 = image.get_pixel(xi, yi1);
    let c10 = image.get_pixel(xi1, yi);
    let c11 = image.get_pixel(xi1, yi1);
    let r: [u8; 3] = [
        bilerp_exec(c00[0], c01[0], c10[0], c11[0], tx, x.den, ty, y.den),
        bilerp_exec(c00[1], c01[1], c10[1], c11[1], tx, x.den, ty, y.den),
        bilerp_exec(c00[2], c01[2], c10[2], c11[2], tx, x.den, ty, y.den),
    ];
    proof {
        assert(r@ =~= spec_imagept(*image, x.num as int, x.den as int, y.num as int, y.den as int));
    }
    r
}

/// One interpolated channel, floored and within byte range.
fn bilerp_exec(c00: u8, c01: u8, c10: u8, c11: u8, tx: u64, qx: u64, ty: u64, qy: u64) -> (r: u8)
    requires
        1 <= qx <= SAMPLE_DEN_LIMIT,
        1 <= qy <= SAMPLE_DEN_LIMIT,
        tx < qx,
        ty < qy,
    ensures
        r == bilerp_channel(
            c00 as int,
            c01 as int,
            c10 as int,
            c11 as int,
            tx as int,
            qx as int,
            ty as int,
            qy as int,
        ) as u8,
        r <= 255,
{
    proof {
        lemma_weights(tx as int, qx as int, ty as int, qy as int);
        lemma_scale_le_255(((qx - tx) as int) * ((qy - ty) as int), c00 as int);
        lemma_scale_le_255((tx as int) * ((qy - ty) as int), c01 as int);
        lemma_scale_le_255(((qx - tx) as int) * (ty as int), c10 as int);
        lemma_scale_le_255((tx as int) * (ty as int), c11 as int);
    }
    let fx: u128 = (qx - tx) as u128;
    let fy: u128 = (qy - ty) as u128;
    let txw: u128 = tx as u128;
    let tyw: u128 = ty as u128;
    let num: u128 = fx * fy * (c00 as u128) + txw * fy * (c01 as u128) + fx * tyw * (c10 as u128)
        + txw * tyw * (c11 as u128);
    let den2: u128 = (qx as u128) * (qy as u128);
    let v: u128 = num / den2;
    proof {
        lemma_div_le_255(num as int, den2 as int);
    }
    v as u8
}

/// The pixel the compositor writes at destination coordinate `(x, y)`:
/// the normalized coordinate is remapped by the group function, mapped
/// affinely into the source rectangle `(r0, r1)..(r2, r3)`, and
/// sampled.
pub open spec fn spec_wallpaper_pixel_at<T: BasicRgbImage>(
    src: T,
    r0: int,
    r1: int,
    r2: int,
    r3: int,
    g: WallpaperGroup,
    x: int,
    y: int,
    dw: int,
    dh: int,
) -> Seq<u8> {
    let p = spec_remap(g, x, dw, y, dh);
    let sxn = r0 * p.0.1 + (r2 - r0) * p.0.0;
    let syn = r1 * p.1.1 + (r3 - r1) * p.1.0;
    spec_imagept(src, sxn, p.0.1, syn, p.1.1)
}

/// The same, with the source rectangle given as an array of corners.
pub open spec fn spec_wallpaper_pixel<T: BasicRgbImage>(
    src: T,
    source_rect: [i64; 4],
    g: WallpaperGroup,
    x: int,
    y: int,
    dw: int,
    dh: int,
) -> Seq<u8> {
    spec_wallpaper_pixel_at(
        src,
        source_rect[0] as int,
        source_rect[1] as int,
        source_rect[2] as int,
        source_rect[3] as int,
        g,
        x,
        y,
        dw,
        dh,
    )
}

/// The denominators a remap produces are positive and fit the sampler.
proof fn lemma_remap_den_bound(g: WallpaperGroup, xn: int, xd: int, yn: int, yd: int)
    requires
        1 <= xd <= REMAP_DEN_LIMIT,
        1 <= yd <= REMAP_DEN_LIMIT,
    ensures
        1 <= spec_remap(g, xn, xd, yn, yd).0.1 <= SAMPLE_DEN_LIMIT,
        1 <= spec_remap(g, xn, xd, yn, yd).1.1 <= SAMPLE_DEN_LIMIT,
{
    assert(1 <= 4 * xd * yd <= SAMPLE_DEN_LIMIT && 1 <= 4 * yd * xd <= SAMPLE_DEN_LIMIT)
        by (nonlinear_arith)
        requires
            1 <= xd <= REMAP_DEN_LIMIT,
            1 <= yd <= REMAP_DEN_LIMIT,
    ;
}

/// Creates a `dest_width` by `dest_height` image from a portion of a
/// source image with the help of a wallpaper-group function.  The
/// source rectangle may wrap around the source image.  The source is
/// not mutated.  A zero destination width or height yields the empty
/// image of that size.
pub fn wallpaper_image<T: BasicRgbImage>(
    dest_width: u32,
    dest_height: u32,
    src_image: &T,
    source_rect: [i64; 4],
    group: WallpaperGroup,
) -> (r: T)
    requires
        dest_width as u64 <= REMAP_DEN_LIMIT,
        dest_height as u64 <= REMAP_DEN_LIMIT,
        -RECT_COORD_LIMIT <= source_rect[0] <= RECT_COORD_LIMIT,
        -RECT_COORD_LIMIT <= source_rect[1] <= RECT_COORD_LIMIT,
        -RECT_COORD_LIMIT <= source_rect[2] <= RECT_COORD_LIMIT,
        -RECT_COORD_LIMIT <= source_rect[3] <= RECT_COORD_LIMIT,
        (dest_width as int) * (dest_height as int) * 3 <= usize::MAX as int,
    ensures
        r.img_width() == dest_width,
        r.img_height() == dest_height,
        forall|x: int, y: int|
            0 <= x < dest_width && 0 <= y < dest_height ==> r.img_pixel(x, y)
                == spec_wallpaper_pixel(
                *src_image,
                source_rect,
                group,
                x,
                y,
                dest_width as int,
                dest_height as int,
            ),
{
    let mut img = T::new(dest_width, dest_height);
    let mut y: u32 = 0;
    while y < dest_height
        invariant
            img.img_width() == dest_width,
            img.img_height() == dest_height,
            y <= dest_height,
            dest_width as u64 <= REMAP_DEN_LIMIT,
            dest_height as u64 <= REMAP_DEN_LIMIT,
            -RECT_COORD_LIMIT <= source_rect[0] <= RECT_COORD_LIMIT,
            -RECT_COORD_LIMIT <= source_rect[1] <= RECT_COORD_LIMIT,
            -RECT_COORD_LIMIT <= source_rect[2] <= RECT_COORD_LIMIT,
            -RECT_COORD_LIMIT <= source_rect[3] <= RECT_COORD_LIMIT,
            forall|i: int, j: int|
                0 <= i < dest_width && 0 <= j < y ==> img.img_pixel(i, j) == spec_wallpaper_pixel(
                    *src_image,
                    source_rect,
                    group,
                    i,
                    j,
                    dest_width as int,
                    dest_height as int,
                ),
        decreases dest_height - y,
    {
        let mut x: u32 = 0;
        while x < dest_width
            invariant
                img.img_width() == dest_width,
                img.img_height() == dest_height,
                x <= dest_width,
                y < dest_height,
                dest_width as u64 <= REMAP_DEN_LIMIT,
                dest_height as u64 <= REMAP_DEN_LIMIT,
                -RECT_COORD_LIMIT <= source_rect[0] <= RECT_COORD_LIMIT,
                -RECT_COORD_LIMIT <= source_rect[1] <= RECT_COORD_LIMIT,
                -RECT_COORD_LIMIT <= source_rect[2] <= RECT_COORD_LIMIT,
                -RECT_COORD_LIMIT <= source_rect[3] <= RECT_COORD_LIMIT,
                forall|i: int, j: int|
                    0 <= i < dest_width && 0 <= j < y ==> img.img_pixel(i, j)
                        == spec_wallpaper_pixel(
                        *src_image,
                        source_rect,
                        group,
                        i,
                        j,
                        dest_width as int,
                        dest_height as int,
                    ),
                forall|i: int|
                    0 <= i < x ==> img.img_pixel(i, y as int) == spec_wallpaper_pixel(
                        *src_image,
                        source_rect,
                        group,
                        i,
                        y as int,
                        dest_width as int,
                        dest_height as int,
                    ),
            decreases dest_width - x,
        {
            let px = Frac { num: x as u64, den: dest_width as u64 };
            let py = Frac { num: y as u64, den: dest_height as u64 };
            let (rx, ry) = remap(group, px, py);
            proof {
                lemma_remap_den_bound(
                    group,
                    x as int,
                    dest_width as int,
                    y as int,
                    dest_height as int,
                );
                lemma_prod_abs_bound(
                    source_rect[0] as int,
                    rx.den as int,
                    RECT_COORD_LIMIT as int,
                    SAMPLE_DEN_LIMIT as int,
                );
                lemma_prod_abs_bound(
                    (source_rect[2] - source_rect[0]) as int,
                    rx.num as int,
                    2 * RECT_COORD_LIMIT as int,
                    SAMPLE_DEN_LIMIT as int,
                );
                lemma_prod_abs_bound(
                    source_rect[1] as int,
                    ry.den as int,
                    RECT_COORD_LIMIT as int,
                    SAMPLE_DEN_LIMIT as int,
                );
                lemma_prod_abs_bound(
                    (source_rect[3] - source_rect[1]) as int,
                    ry.num as int,
                    2 * RECT_COORD_LIMIT as int,
                    SAMPLE_DEN_LIMIT as int,
                );
            }
            let sxn: i128 = (source_rect[0] as i128) * (rx.den as i128) + ((
            source_rect[2] as i128) - (source_rect[0] as i128)) * (rx.num as i128);
            let syn: i128 = (source_rect[1] as i128) * (ry.den as i128) + ((
            source_rect[3] as i128) - (source_rect[1] as i128)) * (ry.num as i128);
            let pixel = imagept(src_image, Coord { num: sxn, den: rx.den }, Coord {
                num: syn,
                den: ry.den,
            });
            img.put_pixel(x, y, pixel);
            x = x + 1;
        }
        y = y + 1;
    }
    img
}

} // verus!
