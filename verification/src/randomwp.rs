//! The random scene generator: checkerboard boxes at random positions,
//! an optional recomposition through a random wallpaper group, and a
//! final ordered dither to the web-safe palette.
//!
//! The sampled values are random, so the contracts record them as
//! existential witnesses: whatever the sampler returned, the result is
//! exactly the pipeline applied to some well-formed sequence of draws.
use crate::basicrgbimage::BasicRgbImage;
use crate::basicrgbimage::black_pixel;
use crate::dither::lemma_websafe_pixel_closed;
use crate::dither::websafe_or_vga;
use crate::dither::websafe_pixel;
use crate::dither::websafedither;
use crate::imageop::borderedbox;
use crate::imageop::box_pixel;
use crate::imageop::box_result;
use crate::random::UniformRandom;
use crate::remap::WallpaperGroup;
use crate::sample::spec_wallpaper_pixel_at;
use crate::sample::wallpaper_image;
use vstd::prelude::*;

verus! {

/// Upper bound on the image dimensions `randomboxes` accepts, so that
/// box corners fit signed 32-bit drawing coordinates.
pub const RANDOM_BOX_DIM_LIMIT: u32 = 0x40000000;

/// One sampled box of the scene generator: its border, its drawing
/// rectangle and its fill color.
pub struct BoxPick {
    pub border: Option<[u8; 3]>,
    pub rect: [i32; 4],
    pub color: [u8; 3],
}

/// The border option is present and black.
pub open spec fn black_border(b: Option<[u8; 3]>) -> bool {
    match b {
        Some(c) => c@ == black_pixel(),
        None => false,
    }
}

/// The largest sampled box extent for an image dimension: three
/// quarters of it, but at least 3.
pub open spec fn box_ext_max(dim: int) -> int {
    if dim * 3 / 4 < 3 {
        3
    } else {
        dim * 3 / 4
    }
}

/// A well-formed sampled box for a `w` by `h` image: black border, an
/// origin inside the image, and extents beyond the origin between 3
/// and the dimension's cap.
pub open spec fn box_pick_ok(p: BoxPick, w: int, h: int) -> bool {
    &&& black_border(p.border)
    &&& 0 <= p.rect[0] < w
    &&& 0 <= p.rect[1] < h
    &&& 3 <= p.rect[2] - p.rect[0] <= box_ext_max(w)
    &&& 3 <= p.rect[3] - p.rect[1] <= box_ext_max(h)
}

/// The pixel at `(tx, ty)` of a `w` by `h` image after the sampled
/// boxes are drawn in order, each with wraparound, over a starting
/// pixel value.
pub open spec fn boxes_pixel(
    start: Seq<u8>,
    w: int,
    h: int,
    picks: Seq<BoxPick>,
    tx: int,
    ty: int,
) -> Seq<u8>
    decreases picks.len(),
{
    if picks.len() <= 0 {
        start
    } else {
        let p = picks.last();
        box_pixel(
            boxes_pixel(start, w, h, picks.drop_last(), tx, ty),
            w,
            h,
            p.border,
            p.color,
            p.color,
            p.rect,
            true,
            tx,
            ty,
        )
    }
}

/// Thirty well-formed sampled boxes drawn in order over the old image
/// give the new image.
pub open spec fn draws_boxes<T: BasicRgbImage>(pre: T, post: T, picks: Seq<BoxPick>) -> bool {
    &&& post.img_width() == pre.img_width()
    &&& post.img_height() == pre.img_height()
    &&& picks.len() == 30
    &&& (forall|k: int|
        0 <= k < picks.len() ==> box_pick_ok(
            #[trigger] picks[k],
            pre.img_width() as int,
            pre.img_height() as int,
        ))
    &&& (forall|tx: int, ty: int|
        0 <= tx < pre.img_width() && 0 <= ty < pre.img_height()
            ==> #[trigger] post.img_pixel(tx, ty) == boxes_pixel(
            pre.img_pixel(tx, ty),
            pre.img_width() as int,
            pre.img_height() as int,
            picks,
            tx,
            ty,
        ))
}

/// Draws thirty single-colored, black-bordered checkerboard boxes at
/// uniformly random positions, with wraparound; each box extends
/// between 3 and three quarters of the image dimension beyond its
/// origin.  The thirty sampled boxes are recorded as a witness: the
/// final image is exactly their in-order drawing over the old image.
pub fn randomboxes<T: BasicRgbImage, U: UniformRandom>(image: &mut T, rng: &mut U)
    requires
        1 <= old(image).img_width() <= RANDOM_BOX_DIM_LIMIT,
        1 <= old(image).img_height() <= RANDOM_BOX_DIM_LIMIT,
    ensures
        final(image).img_width() == old(image).img_width(),
        final(image).img_height() == old(image).img_height(),
        exists|picks: Seq<BoxPick>| #[trigger] draws_boxes(*old(image), *final(image), picks),
{
    let w = image.width();
    let h = image.height();
    let wext: u32 = if w * 3 / 4 < 3 {
        3
    } else {
        w * 3 / 4
    };
    let hext: u32 = if h * 3 / 4 < 3 {
        3
    } else {
        h * 3 / 4
    };
    let ghost mut picks: Seq<BoxPick> = Seq::empty();
    let mut n: u32 = 0;
    while n < 30
        invariant
            n <= 30,
            1 <= w <= RANDOM_BOX_DIM_LIMIT,
            1 <= h <= RANDOM_BOX_DIM_LIMIT,
            3 <= wext,
            wext <= RANDOM_BOX_DIM_LIMIT,
            3 <= hext,
            hext <= RANDOM_BOX_DIM_LIMIT,
            wext as int == box_ext_max(w as int),
            hext as int == box_ext_max(h as int),
            w == image.img_width(),
            h == image.img_height(),
            image.img_width() == old(image).img_width(),
            image.img_height() == old(image).img_height(),
            picks.len() == n,
            forall|k: int|
                0 <= k < picks.len() ==> box_pick_ok(#[trigger] picks[k], w as int, h as int),
            forall|tx: int, ty: int|
                0 <= tx < w && 0 <= ty < h ==> #[trigger] image.img_pixel(tx, ty) == boxes_pixel(
                    old(image).img_pixel(tx, ty),
                    w as int,
                    h as int,
                    picks,
                    tx,
                    ty,
                ),
        decreases 30 - n,
    {
        let x0 = rng.sample(0, w - 1);
        let dx = rng.sample(3, wext);
        let y0 = rng.sample(0, h - 1);
        let dy = rng.sample(3, hext);
        let c0: [u8; 3] = [
            rng.sample(0, 255) as u8,
            rng.sample(0, 255) as u8,
            rng.sample(0, 255) as u8,
        ];
        let rect: [i32; 4] = [x0 as i32, y0 as i32, (x0 + dx) as i32, (y0 + dy) as i32];
        let border: Option<[u8; 3]> = Some([0, 0, 0]);
        let ghost prev = *image;
        borderedbox(image, border, c0, c0, rect, true);
        proof {
            let p = BoxPick { border, rect, color: c0 };
            match border {
                Some(bc) => {
                    assert(bc@ =~= black_pixel());
                },
                None => {},
            }
            assert(box_pick_ok(p, w as int, h as int));
            let prevpicks = picks;
            picks = picks.push(p);
            assert(picks.drop_last() =~= prevpicks);
            assert(picks.last() == p);
            assert forall|tx: int, ty: int|
                0 <= tx < w && 0 <= ty < h implies image.img_pixel(tx, ty) == boxes_pixel(
                old(image).img_pixel(tx, ty),
                w as int,
                h as int,
                picks,
                tx,
                ty,
            ) by {
                assert(image.img_pixel(tx, ty) == box_result(prev, border, c0, c0, rect, true, tx, ty));
                assert(prev.img_pixel(tx, ty) == boxes_pixel(
                    old(image).img_pixel(tx, ty),
                    w as int,
                    h as int,
                    prevpicks,
                    tx,
                    ty,
                ));
            }
        }
        n = n + 1;
    }
    proof {
        assert(draws_boxes(*old(image), *image, picks));
    }
}

/// A generated wallpaper dimension: a multiple of 8 in `[128, 256]`.
pub open spec fn valid_dimension(d: u32) -> bool {
    128 <= d <= 256 && d % 8 == 0
}

/// One fully sampled generation, with every random choice recorded:
/// `b` is the thirty-box scene drawn on a blank canvas of a sampled
/// size, `pre` is either `b` itself or its recomposition through a
/// sampled wallpaper-group function at a second sampled size over the
/// whole of `b`, and the result is the web-safe ordered dither of
/// `pre` with VGA colors preserved.
pub open spec fn wallpaper_pipeline<T: BasicRgbImage>(
    b: T,
    picks: Seq<BoxPick>,
    pre: T,
    g: WallpaperGroup,
    result: T,
) -> bool {
    &&& valid_dimension(b.img_width())
    &&& valid_dimension(b.img_height())
    &&& picks.len() == 30
    &&& (forall|k: int|
        0 <= k < picks.len() ==> box_pick_ok(
            #[trigger] picks[k],
            b.img_width() as int,
            b.img_height() as int,
        ))
    &&& (forall|tx: int, ty: int|
        0 <= tx < b.img_width() && 0 <= ty < b.img_height() ==> #[trigger] b.img_pixel(tx, ty)
            == boxes_pixel(
            black_pixel(),
            b.img_width() as int,
            b.img_height() as int,
            picks,
            tx,
            ty,
        ))
    &&& (pre == b || (valid_dimension(pre.img_width()) && valid_dimension(pre.img_height()) && (
    forall|x: int, y: int|
        0 <= x < pre.img_width() && 0 <= y < pre.img_height() ==> #[trigger] pre.img_pixel(x, y)
            == spec_wallpaper_pixel_at(
            b,
            0,
            0,
            b.img_width() as int,
            b.img_height() as int,
            g,
            x,
            y,
            pre.img_width() as int,
            pre.img_height() as int,
        ))))
    &&& result.img_width() == pre.img_width()
    &&& result.img_height() == pre.img_height()
    &&& (forall|x: int, y: int|
        0 <= x < result.img_width() && 0 <= y < result.img_height() ==> #[trigger] result.img_pixel(
            x,
            y,
        ) == websafe_pixel(pre.img_pixel(x, y), x, y, true))
}

/// A random dimension for a generated wallpaper: uniform in
/// `[128, 256]`, rounded down to a multiple of 8.
fn random_dimension<U: UniformRandom>(rng: &mut U) -> (r: u32)
    ensures
        valid_dimension(r),
{
    let s = rng.sample(128, 256);
    let r = (s / 8) * 8;
    proof {
        vstd::arithmetic::div_mod::lemma_fundamental_div_mod(s as int, 8);
        vstd::arithmetic::div_mod::lemma_mod_bound(s as int, 8);
        vstd::arithmetic::div_mod::lemma_mod_multiples_basic(s as int / 8, 8);
    }
    r
}

/// Generates one finished wallpaper: a random size whose sides are
/// multiples of 8 in `[128, 256]`, thirty random boxes on a blank
/// canvas, with one chance in two a recomposition at a second random
/// size through a random wallpaper-group function (the two p4m
/// variants are given double weight), and always a final web-safe
/// ordered dither that preserves VGA colors.  The sampled stages are
/// recorded as witnesses, and every pixel of the result is web-safe or
/// a preserved VGA color.
pub fn randomwallpaper<T: BasicRgbImage, U: UniformRandom>(rng: &mut U) -> (r: T)
    ensures
        valid_dimension(r.img_width()),
        valid_dimension(r.img_height()),
        forall|x: int, y: int|
            0 <= x < r.img_width() && 0 <= y < r.img_height() ==> websafe_or_vga(
                #[trigger] r.img_pixel(x, y),
            ),
        exists|b: T, picks: Seq<BoxPick>, pre: T, g: WallpaperGroup|
            #[trigger] wallpaper_pipeline(b, picks, pre, g, r),
{
    let w: u32 = random_dimension(rng);
    let h: u32 = random_dimension(rng);
    proof {
        assert((w as int) * (h as int) * 3 <= 196608) by (nonlinear_arith)
            requires
                w <= 256,
                h <= 256,
        ;
    }
    let mut image: T = T::new(w, h);
    let ghost blank = image;
    randomboxes(&mut image, rng);
    let ghost boxed = image;
    let ghost picks = choose|p: Seq<BoxPick>| draws_boxes(blank, boxed, p);
    proof {
        assert(draws_boxes(blank, boxed, picks));
        assert forall|tx: int, ty: int|
            0 <= tx < boxed.img_width() && 0 <= ty < boxed.img_height() implies #[trigger] boxed.img_pixel(
            tx,
            ty,
        ) == boxes_pixel(
            black_pixel(),
            boxed.img_width() as int,
            boxed.img_height() as int,
            picks,
            tx,
            ty,
        ) by {
            assert(blank.img_pixel(tx, ty) == black_pixel());
        }
    }
    let ghost mut gsel: WallpaperGroup = WallpaperGroup::Pmm;
    if rng.sample(0, 1) == 0 {
        let w2: u32 = random_dimension(rng);
        let h2: u32 = random_dimension(rng);
        proof {
            assert((w2 as int) * (h2 as int) * 3 <= 196608) by (nonlinear_arith)
                requires
                    w2 <= 256,
                    h2 <= 256,
            ;
        }
        let group = match rng.sample(0, 13) {
            0 => WallpaperGroup::P4m,
            1 => WallpaperGroup::P4mAlt,
            2 => WallpaperGroup::P3m1,
            3 => WallpaperGroup::P6m,
            4 => WallpaperGroup::P6mAlt,
            5 => WallpaperGroup::P3m1Alt1,
            6 => WallpaperGroup::P3m1Alt2,
            7 => WallpaperGroup::P6mAlt1a,
            8 => WallpaperGroup::P6mAlt1b,
            9 => WallpaperGroup::P6mAlt2a,
            10 => WallpaperGroup::P6mAlt2b,
            11 => WallpaperGroup::P4m,
            12 => WallpaperGroup::P4mAlt,
            _ => WallpaperGroup::Pmm,
        };
        image = wallpaper_image(w2, h2, &image, [0, 0, w as i64, h as i64], group);
        proof {
            gsel = group;
        }
    }
    let ghost pre = image;
    websafedither(&mut image, true);
    proof {
        assert forall|x: int, y: int|
            0 <= x < image.img_width() && 0 <= y < image.img_height() implies websafe_or_vga(
            #[trigger] image.img_pixel(x, y),
        ) by {
            lemma_websafe_pixel_closed(pre.img_pixel(x, y), x, y);
        }
        assert(wallpaper_pipeline(boxed, picks, pre, gsel, image));
    }
    image
}

} // verus!
