//! The two dithering algorithms: ordered (Bayer-matrix) quantization to
//! the web-safe palette, and Floyd-Steinberg error diffusion to an
//! arbitrary palette.
//!
//! The web-safe ("safety") palette consists of the 216 colors whose
//! channels are multiples of 51; images restricted to it do not dither
//! further on displays limited to 256 colors.
use crate::basicrgbimage::BasicRgbImage;
use vstd::arithmetic::div_mod::lemma_div_is_ordered;
use vstd::arithmetic::div_mod::lemma_fundamental_div_mod;
use vstd::arithmetic::div_mod::lemma_fundamental_div_mod_converse_div;
use vstd::arithmetic::div_mod::lemma_fundamental_div_mod_converse_mod;
use vstd::arithmetic::div_mod::lemma_mod_bound;
use vstd::prelude::*;

verus! {

/// Entry `i` (row-major) of the fixed 8x8 Bayer ordered-dither matrix.
pub open spec fn bayer_at(i: int) -> int {
    if i == 0 {
        0
    } else if i == 1 {
        32
    } else if i == 2 {
        8
    } else if i == 3 {
        40
    } else if i == 4 {
        2
    } else if i == 5 {
        34
    } else if i == 6 {
        10
    } else if i == 7 {
        42
    } else if i == 8 {
        48
    } else if i == 9 {
        16
    } else if i == 10 {
        56
    } else if i == 11 {
        24
    } else if i == 12 {
        50
    } else if i == 13 {
        18
    } else if i == 14 {
        58
    } else if i == 15 {
        26
    } else if i == 16 {
        12
    } else if i == 17 {
        44
    } else if i == 18 {
        4
    } else if i == 19 {
        36
    } else if i == 20 {
        14
    } else if i == 21 {
        46
    } else if i == 22 {
        6
    } else if i == 23 {
        38
    } else if i == 24 {
        60
    } else if i == 25 {
        28
    } else if i == 26 {
        52
    } else if i == 27 {
        20
    } else if i == 28 {
        62
    } else if i == 29 {
        30
    } else if i == 30 {
        54
    } else if i == 31 {
        22
    } else if i == 32 {
        3
    } else if i == 33 {
        35
    } else if i == 34 {
        11
    } else if i == 35 {
        43
    } else if i == 36 {
        1
    } else if i == 37 {
        33
    } else if i == 38 {
        9
    } else if i == 39 {
        41
    } else if i == 40 {
        51
    } else if i == 41 {
        19
    } else if i == 42 {
        59
    } else if i == 43 {
        27
    } else if i == 44 {
        49
    } else if i == 45 {
        17
    } else if i == 46 {
        57
    } else if i == 47 {
        25
    } else if i == 48 {
        15
    } else if i == 49 {
        47
    } else if i == 50 {
        7
    } else if i == 51 {
        39
    } else if i == 52 {
        13
    } else if i == 53 {
        45
    } else if i == 54 {
        5
    } else if i == 55 {
        37
    } else if i == 56 {
        63
    } else if i == 57 {
        31
    } else if i == 58 {
        55
    } else if i == 59 {
        23
    } else if i == 60 {
        61
    } else if i == 61 {
        29
    } else if i == 62 {
        53
    } else {
        21
    }
}

/// Entry `i` (row-major) of the fixed 8x8 Bayer ordered-dither matrix,
/// a permutation of the thresholds 0 through 63.
pub fn bayer_entry(i: u32) -> (r: u8)
    requires
        i < 64,
    ensures
        r as int == bayer_at(i as int),
{
    match i {
        0 => 0,
        1 => 32,
        2 => 8,
        3 => 40,
        4 => 2,
        5 => 34,
        6 => 10,
        7 => 42,
        8 => 48,
        9 => 16,
        10 => 56,
        11 => 24,
        12 => 50,
        13 => 18,
        14 => 58,
        15 => 26,
        16 => 12,
        17 => 44,
        18 => 4,
        19 => 36,
        20 => 14,
        21 => 46,
        22 => 6,
        23 => 38,
        24 => 60,
        25 => 28,
        26 => 52,
        27 => 20,
        28 => 62,
        29 => 30,
        30 => 54,
        31 => 22,
        32 => 3,
        33 => 35,
        34 => 11,
        35 => 43,
        36 => 1,
        37 => 33,
        38 => 9,
        39 => 41,
        40 => 51,
        41 => 19,
        42 => 59,
        43 => 27,
        44 => 49,
        45 => 17,
        46 => 57,
        47 => 25,
        48 => 15,
        49 => 47,
        50 => 7,
        51 => 39,
        52 => 13,
        53 => 45,
        54 => 5,
        55 => 37,
        56 => 63,
        57 => 31,
        58 => 55,
        59 => 23,
        60 => 61,
        61 => 29,
        62 => 53,
        _ => 21,
    }
}

/// Every Bayer threshold lies between 0 and 63.
proof fn lemma_bayer_range(i: int)
    ensures
        0 <= bayer_at(i) <= 63,
{
}

/// One channel ordered-dithered against threshold `t`: rounded down to
/// its multiple of 51, or up to the next one when the threshold falls
/// below the scaled remainder.
pub open spec fn websafe_channel(v: int, t: int) -> int {
    let cm = v % 51;
    if t < cm * 64 / 51 {
        v - cm + 51
    } else {
        v - cm
    }
}

/// The colors of the VGA palette that are preserved on request: silver,
/// and the combinations of 0 and 0x80 per channel.
pub open spec fn vga_kept(c: Seq<u8>) -> bool {
    (c[0] == 0xC0 && c[1] == 0xC0 && c[2] == 0xC0) || ((c[0] == 0 || c[0] == 0x80) && (c[1] == 0
        || c[1] == 0x80) && (c[2] == 0 || c[2] == 0x80))
}

/// What the web-safe dither leaves at position `(x, y)` in place of the
/// prior channels `c`.
pub open spec fn websafe_pixel(c: Seq<u8>, x: int, y: int, include_vga: bool) -> Seq<u8> {
    if include_vga && vga_kept(c) {
        c
    } else {
        let t = bayer_at((y % 8) * 8 + (x % 8));
        seq![
            websafe_channel(c[0] as int, t) as u8,
            websafe_channel(c[1] as int, t) as u8,
            websafe_channel(c[2] as int, t) as u8,
        ]
    }
}

/// A dithered channel stays a byte, and rounding up is only possible
/// below the top level.
proof fn lemma_websafe_channel_range(v: int, t: int)
    requires
        0 <= v <= 255,
        0 <= t,
    ensures
        0 <= websafe_channel(v, t) <= 255,
        websafe_channel(v, t) % 51 == 0,
{
    lemma_fundamental_div_mod(v, 51);
    lemma_mod_bound(v, 51);
    let q = v / 51;
    let cm = v % 51;
    assert(v - cm == q * 51) by (nonlinear_arith)
        requires
            v == 51 * q + cm,
    ;
    lemma_fundamental_div_mod_converse_mod(v - cm, 51, q, 0);
    lemma_fundamental_div_mod_converse_mod(v - cm + 51, 51, q + 1, 0);
    if q >= 5 {
        assert(cm == 0);
        assert(cm * 64 / 51 == 0);
    }
}

/// One channel of the ordered dither.
fn websafe_channel_exec(v: u8, t: u8) -> (r: u8)
    requires
        t < 64,
    ensures
        r as int == websafe_channel(v as int, t as int),
{
    proof {
        lemma_websafe_channel_range(v as int, t as int);
        lemma_mod_bound(v as int, 51);
    }
    let cm: u32 = (v as u32) % 51;
    if (t as u32) < (cm * 64) / 51 {
        ((v as u32) - cm + 51) as u8
    } else {
        ((v as u32) - cm) as u8
    }
}

/// Does an ordered dither of the image so that it uses only colors of
/// the web-safe palette: each channel is quantized to a multiple of 51,
/// rounding up or down by the Bayer threshold of its position.  When
/// `include_vga` is set, pixels whose color is a VGA color outside the
/// web-safe palette are left untouched.
pub fn websafedither<T: BasicRgbImage>(image: &mut T, include_vga: bool)
    ensures
        final(image).img_width() == old(image).img_width(),
        final(image).img_height() == old(image).img_height(),
        forall|x: int, y: int|
            0 <= x < old(image).img_width() && 0 <= y < old(image).img_height()
                ==> final(image).img_pixel(x, y) == websafe_pixel(old(image).img_pixel(x, y), x, y, include_vga),
{
    let h = image.height();
    let w = image.width();
    let mut y: u32 = 0;
    while y < h
        invariant
            w == image.img_width(),
            h == image.img_height(),
            image.img_width() == old(image).img_width(),
            image.img_height() == old(image).img_height(),
            y <= h,
            forall|i: int, j: int|
                0 <= i < w && 0 <= j < y ==> image.img_pixel(i, j) == websafe_pixel(
                    old(image).img_pixel(i, j),
                    i,
                    j,
                    include_vga,
                ),
            forall|i: int, j: int|
                0 <= i < w && y <= j < h ==> image.img_pixel(i, j) == old(image).img_pixel(i, j),
        decreases h - y,
    {
        let mut x: u32 = 0;
        while x < w
            invariant
                w == image.img_width(),
                h == image.img_height(),
                image.img_width() == old(image).img_width(),
                image.img_height() == old(image).img_height(),
                x <= w,
                y < h,
                forall|i: int, j: int|
                    0 <= i < w && 0 <= j < y ==> image.img_pixel(i, j) == websafe_pixel(
                        old(image).img_pixel(i, j),
                        i,
                        j,
                        include_vga,
                    ),
                forall|i: int|
                    0 <= i < x ==> image.img_pixel(i, y as int) == websafe_pixel(
                        old(image).img_pixel(i, y as int),
                        i,
                        y as int,
                        include_vga,
                    ),
                forall|i: int, j: int|
                    0 <= i < w && y < j < h ==> image.img_pixel(i, j) == old(image).img_pixel(i, j),
                forall|i: int|
                    x <= i < w ==> image.img_pixel(i, y as int) == old(image).img_pixel(i, y as int),
            decreases w - x,
        {
            let rc = image.get_pixel(x, y);
            let keep: bool = include_vga && ((rc[0] == 0xC0 && rc[1] == 0xC0 && rc[2] == 0xC0) || (
            (rc[0] == 0 || rc[0] == 0x80) && (rc[1] == 0 || rc[1] == 0x80) && (rc[2] == 0 || rc[2]
                == 0x80)));
            if !keep {
                let t: u8 = bayer_entry((y % 8) * 8 + (x % 8));
                let np: [u8; 3] = [
                    websafe_channel_exec(rc[0], t),
                    websafe_channel_exec(rc[1], t),
                    websafe_channel_exec(rc[2], t),
                ];
                image.put_pixel(x, y, np);
                proof {
                    assert(image.img_pixel(x as int, y as int) =~= websafe_pixel(
                        old(image).img_pixel(x as int, y as int),
                        x as int,
                        y as int,
                        include_vga,
                    ));
                }
            } else {
                proof {
                    assert(image.img_pixel(x as int, y as int) =~= websafe_pixel(
                        old(image).img_pixel(x as int, y as int),
                        x as int,
                        y as int,
                        include_vga,
                    ));
                }
            }
            x = x + 1;
        }
        y = y + 1;
    }
}

/// LAW — web-safe levels.  Without VGA preservation, every channel the
/// ordered dither produces is one of the six web-safe levels 0, 51,
/// 102, 153, 204, 255: a multiple of 51 within byte range.
pub proof fn lemma_websafe_levels(c: Seq<u8>, x: int, y: int)
    requires
        0 <= x,
        0 <= y,
    ensures
        forall|k: int|
            0 <= k < 3 ==> {
                let ch = #[trigger] websafe_pixel(c, x, y, false)[k] as int;
                ch % 51 == 0 && 0 <= ch <= 255
            },
{
    lemma_mod_bound(y, 8);
    lemma_mod_bound(x, 8);
    lemma_bayer_range((y % 8) * 8 + (x % 8));
    let t = bayer_at((y % 8) * 8 + (x % 8));
    lemma_websafe_channel_range(c[0] as int, t);
    lemma_websafe_channel_range(c[1] as int, t);
    lemma_websafe_channel_range(c[2] as int, t);
    assert(websafe_pixel(c, x, y, false)[0] as int == websafe_channel(c[0] as int, t));
    assert(websafe_pixel(c, x, y, false)[1] as int == websafe_channel(c[1] as int, t));
    assert(websafe_pixel(c, x, y, false)[2] as int == websafe_channel(c[2] as int, t));
}

/// LAW — VGA preservation.  With `include_vga` set, a pixel whose color
/// is one of the preserved VGA colors comes out of the dither unchanged.
pub proof fn lemma_websafe_vga_preserved(c: Seq<u8>, x: int, y: int)
    requires
        vga_kept(c),
    ensures
        websafe_pixel(c, x, y, true) == c,
{
}

/// A color either lies in the web-safe palette (every channel a
/// multiple of 51) or is one of the VGA colors the ordered dither
/// preserves.
pub open spec fn websafe_or_vga(c: Seq<u8>) -> bool {
    vga_kept(c) || (forall|k: int| 0 <= k < 3 ==> (#[trigger] c[k]) as int % 51 == 0)
}

/// LAW — closure of the VGA-preserving dither.  Whatever the prior
/// color, the pixel the web-safe dither leaves with VGA preservation is
/// web-safe or a preserved VGA color.
pub proof fn lemma_websafe_pixel_closed(c: Seq<u8>, x: int, y: int)
    requires
        0 <= x,
        0 <= y,
    ensures
        websafe_or_vga(websafe_pixel(c, x, y, true)),
{
    if vga_kept(c) {
    } else {
        lemma_websafe_levels(c, x, y);
        assert(websafe_pixel(c, x, y, true) == websafe_pixel(c, x, y, false));
        assert forall|k: int| 0 <= k < 3 implies (#[trigger] websafe_pixel(c, x, y, true)[k]) as int
            % 51 == 0 by {
            assert(websafe_pixel(c, x, y, false)[k] as int % 51 == 0);
        }
    }
}

/// Squared Euclidean distance between the target `(r, g, b)` and a
/// palette color `c`.
pub open spec fn color_dist(c: Seq<u8>, r: int, g: int, b: int) -> int {
    (r - c[0]) * (r - c[0]) + (g - c[1]) * (g - c[1]) + (b - c[2]) * (b - c[2])
}

/// Index of the palette color nearest to `(r, g, b)` among the first
/// `n` entries, the earliest index winning ties.
pub open spec fn nearest_upto(pal: Seq<[u8; 3]>, r: int, g: int, b: int, n: int) -> int
    decreases n,
{
    if n <= 1 {
        0
    } else {
        let p = nearest_upto(pal, r, g, b, n - 1);
        if color_dist(pal[n - 1]@, r, g, b) < color_dist(pal[p]@, r, g, b) {
            n - 1
        } else {
            p
        }
    }
}

proof fn lemma_sq_nonneg(x: int) by (nonlinear_arith)
    ensures
        x * x >= 0,
{
}

proof fn lemma_sq_bound(x: int) by (nonlinear_arith)
    requires
        -255 <= x <= 255,
    ensures
        0 <= x * x <= 65025,
{
}

proof fn lemma_color_dist_nonneg(c: Seq<u8>, r: int, g: int, b: int)
    ensures
        color_dist(c, r, g, b) >= 0,
{
    lemma_sq_nonneg(r - c[0]);
    lemma_sq_nonneg(g - c[1]);
    lemma_sq_nonneg(b - c[2]);
}

/// The chosen index is always in range.
proof fn lemma_nearest_in_range(pal: Seq<[u8; 3]>, r: int, g: int, b: int, n: int)
    requires
        n >= 1,
    ensures
        0 <= nearest_upto(pal, r, g, b, n) < n,
    decreases n,
{
    if n > 1 {
        lemma_nearest_in_range(pal, r, g, b, n - 1);
    }
}

/// Once a palette color at zero distance has been chosen, scanning
/// further entries cannot change the choice.
proof fn lemma_nearest_stable(pal: Seq<[u8; 3]>, r: int, g: int, b: int, n: int, m: int)
    requires
        1 <= n <= m,
        color_dist(pal[nearest_upto(pal, r, g, b, n)]@, r, g, b) == 0,
    ensures
        nearest_upto(pal, r, g, b, m) == nearest_upto(pal, r, g, b, n),
    decreases m,
{
    if m > n {
        lemma_nearest_stable(pal, r, g, b, n, m - 1);
        lemma_color_dist_nonneg(pal[m - 1]@, r, g, b);
    }
}

/// Squared distance of one palette color from the target.
fn color_dist_exec(c: [u8; 3], r: u8, g: u8, b: u8) -> (d: i32)
    ensures
        d as int == color_dist(c@, r as int, g as int, b as int),
        0 <= d <= 195075,
{
    let dr: i32 = r as i32 - c[0] as i32;
    let dg: i32 = g as i32 - c[1] as i32;
    let db: i32 = b as i32 - c[2] as i32;
    proof {
        lemma_sq_bound(dr as int);
        lemma_sq_bound(dg as int);
        lemma_sq_bound(db as int);
    }
    dr * dr + dg * dg + db * db
}

/// Finds the index of the palette color nearest to `(r, g, b)` by
/// squared Euclidean distance, ties broken by the first index; an
/// exact match short-circuits the search.
pub fn nearestrgb3(palette: &Vec<[u8; 3]>, r: u8, g: u8, b: u8) -> (ret: usize)
    requires
        palette.len() >= 1,
    ensures
        ret < palette.len(),
        ret as int == nearest_upto(palette@, r as int, g as int, b as int, palette.len() as int),
{
    let mut ret: usize = 0;
    let mut best: i32 = color_dist_exec(palette[0], r, g, b);
    if best == 0 {
        proof {
            lemma_nearest_stable(palette@, r as int, g as int, b as int, 1, palette.len() as int);
        }
        return 0;
    }
    let mut i: usize = 1;
    while i < palette.len()
        invariant
            1 <= i <= palette.len(),
            ret < i,
            ret as int == nearest_upto(palette@, r as int, g as int, b as int, i as int),
            best as int == color_dist(palette@[ret as int]@, r as int, g as int, b as int),
        decreases palette.len() - i,
    {
        let d = color_dist_exec(palette[i], r, g, b);
        if d < best {
            best = d;
            ret = i;
            if d == 0 {
                proof {
                    lemma_nearest_stable(
                        palette@,
                        r as int,
                        g as int,
                        b as int,
                        (i + 1) as int,
                        palette.len() as int,
                    );
                }
                return ret;
            }
        }
        i = i + 1;
    }
    ret
}

/// A value clamped into byte range.
pub open spec fn clamp255(v: int) -> int {
    if v < 0 {
        0
    } else if v > 255 {
        255
    } else {
        v
    }
}

/// The blank error state: six zeroed blocks of length `w` (for each
/// color channel, the current row's accumulator block and the next
/// row's).
pub open spec fn fs_zero(w: int) -> Seq<int> {
    Seq::new((6 * w) as nat, |k: int| 0)
}

/// Carries the next-row accumulators into the current row, adding the
/// channel values of image row `j`; the next-row accumulators reset to
/// zero.
pub open spec fn fs_propagate<T: BasicRgbImage>(src: T, e: Seq<int>, j: int) -> Seq<int> {
    let w = src.img_width() as int;
    Seq::new(
        (6 * w) as nat,
        |k: int|
            if k < w {
                e[k + w] + src.img_pixel(k, j)[0]
            } else if k < 2 * w {
                0
            } else if k < 3 * w {
                e[k + w] + src.img_pixel(k - 2 * w, j)[1]
            } else if k < 4 * w {
                0
            } else if k < 5 * w {
                e[k + w] + src.img_pixel(k - 4 * w, j)[2]
            } else {
                0
            },
    )
}

/// The palette index chosen at column `i`, given the error state `e`
/// before that column is processed.
pub open spec fn fs_choice(e: Seq<int>, pal: Seq<[u8; 3]>, w: int, i: int) -> int {
    nearest_upto(
        pal,
        clamp255(e[i]),
        clamp255(e[2 * w + i]),
        clamp255(e[4 * w + i]),
        pal.len() as int,
    )
}

/// The value the processing of column `i` leaves at index `k` of the
/// error state: the three accumulators of the column are clamped and
/// stored, and the residual against the chosen palette color is
/// diffused to the right neighbor (7/16) and the next row's left
/// (3/16), center (5/16) and right (1/16) neighbors, each portion
/// floored as by an arithmetic shift; the thirteen touched slots are
/// pairwise distinct and every other slot keeps its value.
pub open spec fn fs_step_at(e: Seq<int>, pal: Seq<[u8; 3]>, w: int, i: int, k: int) -> int {
    let vr = clamp255(e[i]);
    let vg = clamp255(e[2 * w + i]);
    let vb = clamp255(e[4 * w + i]);
    let idx = fs_choice(e, pal, w, i);
    let rr = vr - pal[idx]@[0];
    let rg = vg - pal[idx]@[1];
    let rb = vb - pal[idx]@[2];
    if k == i {
        vr
    } else if k == 2 * w + i {
        vg
    } else if k == 4 * w + i {
        vb
    } else if i + 1 < w && k == i + 1 {
        e[k] + rr * 7 / 16
    } else if i >= 1 && k == w + i - 1 {
        e[k] + rr * 3 / 16
    } else if k == w + i {
        e[k] + rr * 5 / 16
    } else if i + 1 < w && k == w + i + 1 {
        e[k] + rr / 16
    } else if i + 1 < w && k == 2 * w + i + 1 {
        e[k] + rg * 7 / 16
    } else if i >= 1 && k == 3 * w + i - 1 {
        e[k] + rg * 3 / 16
    } else if k == 3 * w + i {
        e[k] + rg * 5 / 16
    } else if i + 1 < w && k == 3 * w + i + 1 {
        e[k] + rg / 16
    } else if i + 1 < w && k == 4 * w + i + 1 {
        e[k] + rb * 7 / 16
    } else if i >= 1 && k == 5 * w + i - 1 {
        e[k] + rb * 3 / 16
    } else if k == 5 * w + i {
        e[k] + rb * 5 / 16
    } else if i + 1 < w && k == 5 * w + i + 1 {
        e[k] + rb / 16
    } else {
        e[k]
    }
}

/// The error state after column `i` of a row has been processed.
pub open spec fn fs_step(e: Seq<int>, pal: Seq<[u8; 3]>, w: int, i: int) -> Seq<int> {
    Seq::new((6 * w) as nat, |k: int| fs_step_at(e, pal, w, i, k))
}

/// The error state after the first `i` columns of a row, starting from
/// the propagated state `e0`.
pub open spec fn fs_row_err(e0: Seq<int>, pal: Seq<[u8; 3]>, w: int, i: int) -> Seq<int>
    decreases i,
{
    if i <= 0 {
        e0
    } else {
        fs_step(fs_row_err(e0, pal, w, i - 1), pal, w, i - 1)
    }
}

/// The error state carried into row `j`.
pub open spec fn fs_carry<T: BasicRgbImage>(src: T, pal: Seq<[u8; 3]>, j: int) -> Seq<int>
    decreases j,
{
    let w = src.img_width() as int;
    if j <= 0 {
        fs_zero(w)
    } else {
        fs_row_err(fs_propagate(src, fs_carry(src, pal, j - 1), j - 1), pal, w, w)
    }
}

/// The palette color the error-diffusion dither writes at `(i, j)`.
pub open spec fn fs_output_pixel<T: BasicRgbImage>(src: T, pal: Seq<[u8; 3]>, i: int, j: int) -> Seq<
    u8,
> {
    let w = src.img_width() as int;
    let e0 = fs_propagate(src, fs_carry(src, pal, j), j);
    pal[fs_choice(fs_row_err(e0, pal, w, i), pal, w, i)]@
}

/// Range bounds for one channel's pair of accumulator cells at column
/// `k`, when the row has been processed up to column `i`.
pub open spec fn fs_cell_ok(cur: int, nxt: int, i: int, k: int) -> bool {
    &&& (k < i ==> 0 <= cur <= 255)
    &&& (k == i ==> -256 <= cur <= 511)
    &&& (k > i ==> -144 <= cur <= 399)
    &&& -144 <= nxt <= 144
    &&& (k == i ==> -16 <= nxt <= 16)
    &&& (k == i - 1 ==> -96 <= nxt <= 96)
    &&& (k > i ==> nxt == 0)
}

/// Range bounds for the whole error state with the row processed up to
/// column `i`.
pub open spec fn fs_row_ok(e: Seq<int>, w: int, i: int) -> bool {
    &&& e.len() == 6 * w
    &&& forall|k: int|
        #![trigger e[k]]
        0 <= k < w ==> fs_cell_ok(e[k], e[w + k], i, k) && fs_cell_ok(
            e[2 * w + k],
            e[3 * w + k],
            i,
            k,
        ) && fs_cell_ok(e[4 * w + k], e[5 * w + k], i, k)
}

proof fn lemma_div16_range(p: int)
    requires
        -1785 <= p <= 1785,
    ensures
        -112 <= p / 16 <= 112,
{
    lemma_div_is_ordered(-1785, p, 16);
    lemma_div_is_ordered(p, 1785, 16);
}

/// One processing step keeps the accumulators within their ranges.
#[verifier::rlimit(100)]
proof fn lemma_fs_step_ok(e: Seq<int>, pal: Seq<[u8; 3]>, w: int, i: int)
    requires
        fs_row_ok(e, w, i),
        0 <= i < w,
        pal.len() >= 1,
    ensures
        fs_row_ok(fs_step(e, pal, w, i), w, i + 1),
{
    let idx = fs_choice(e, pal, w, i);
    lemma_nearest_in_range(
        pal,
        clamp255(e[i]),
        clamp255(e[2 * w + i]),
        clamp255(e[4 * w + i]),
        pal.len() as int,
    );
    let vr = clamp255(e[i]);
    let vg = clamp255(e[2 * w + i]);
    let vb = clamp255(e[4 * w + i]);
    let rr = vr - pal[idx]@[0];
    let rg = vg - pal[idx]@[1];
    let rb = vb - pal[idx]@[2];
    lemma_div16_range(rr * 7);
    lemma_div16_range(rr * 3);
    lemma_div16_range(rr * 5);
    lemma_div16_range(rr);
    lemma_div16_range(rg * 7);
    lemma_div16_range(rg * 3);
    lemma_div16_range(rg * 5);
    lemma_div16_range(rg);
    lemma_div16_range(rb * 7);
    lemma_div16_range(rb * 3);
    lemma_div16_range(rb * 5);
    lemma_div16_range(rb);
    assert(fs_cell_ok(e[i], e[w + i], i, i));
    assert(fs_cell_ok(e[2 * w + i], e[3 * w + i], i, i));
    assert(fs_cell_ok(e[4 * w + i], e[5 * w + i], i, i));
    if i + 1 < w {
        assert(fs_cell_ok(e[i + 1], e[w + i + 1], i, i + 1));
        assert(fs_cell_ok(e[2 * w + i + 1], e[3 * w + i + 1], i, i + 1));
        assert(fs_cell_ok(e[4 * w + i + 1], e[5 * w + i + 1], i, i + 1));
    }
    if i >= 1 {
        assert(fs_cell_ok(e[i - 1], e[w + i - 1], i, i - 1));
        assert(fs_cell_ok(e[2 * w + i - 1], e[3 * w + i - 1], i, i - 1));
        assert(fs_cell_ok(e[4 * w + i - 1], e[5 * w + i - 1], i, i - 1));
    }
    let f = fs_step(e, pal, w, i);
    assert forall|k: int| #![trigger f[k]]
        0 <= k < w implies fs_cell_ok(f[k], f[w + k], i + 1, k) && fs_cell_ok(
        f[2 * w + k],
        f[3 * w + k],
        i + 1,
        k,
    ) && fs_cell_ok(f[4 * w + k], f[5 * w + k], i + 1, k) by {
        assert(fs_cell_ok(e[k], e[w + k], i, k));
        assert(fs_cell_ok(e[2 * w + k], e[3 * w + k], i, k));
        assert(fs_cell_ok(e[4 * w + k], e[5 * w + k], i, k));
    }
}

/// Every prefix of a row keeps the accumulators within their ranges.
proof fn lemma_fs_row_err_ok(e0: Seq<int>, pal: Seq<[u8; 3]>, w: int, i: int)
    requires
        fs_row_ok(e0, w, 0),
        0 <= i <= w,
        pal.len() >= 1,
    ensures
        fs_row_ok(fs_row_err(e0, pal, w, i), w, i),
    decreases i,
{
    if i > 0 {
        lemma_fs_row_err_ok(e0, pal, w, i - 1);
        lemma_fs_step_ok(fs_row_err(e0, pal, w, i - 1), pal, w, i - 1);
    }
}

/// Propagating a finished row's carry into the next row keeps the
/// accumulators within their starting ranges.
proof fn lemma_fs_propagate_ok<T: BasicRgbImage>(src: T, e: Seq<int>, j: int)
    requires
        fs_row_ok(e, src.img_width() as int, src.img_width() as int),
        src.img_width() >= 1,
    ensures
        fs_row_ok(fs_propagate(src, e, j), src.img_width() as int, 0),
{
    let w = src.img_width() as int;
    let f = fs_propagate(src, e, j);
    assert forall|k: int| #![trigger f[k]]
        0 <= k < w implies fs_cell_ok(f[k], f[w + k], 0, k) && fs_cell_ok(
        f[2 * w + k],
        f[3 * w + k],
        0,
        k,
    ) && fs_cell_ok(f[4 * w + k], f[5 * w + k], 0, k) by {
        assert(fs_cell_ok(e[k], e[w + k], w, k));
        assert(fs_cell_ok(e[2 * w + k], e[3 * w + k], w, k));
        assert(fs_cell_ok(e[4 * w + k], e[5 * w + k], w, k));
    }
}

/// The carry into any row keeps the accumulators within the finished
/// ranges.
proof fn lemma_fs_carry_ok<T: BasicRgbImage>(src: T, pal: Seq<[u8; 3]>, j: int)
    requires
        src.img_width() >= 1,
        pal.len() >= 1,
    ensures
        fs_row_ok(fs_carry(src, pal, j), src.img_width() as int, src.img_width() as int),
    decreases j,
{
    let w = src.img_width() as int;
    if j <= 0 {
        assert forall|k: int| #![trigger fs_zero(w)[k]]
            0 <= k < w implies fs_cell_ok(fs_zero(w)[k], fs_zero(w)[w + k], w, k)
            && fs_cell_ok(fs_zero(w)[2 * w + k], fs_zero(w)[3 * w + k], w, k) && fs_cell_ok(
            fs_zero(w)[4 * w + k],
            fs_zero(w)[5 * w + k],
            w,
            k,
        ) by {}
    } else {
        lemma_fs_carry_ok(src, pal, j - 1);
        lemma_fs_propagate_ok(src, fs_carry(src, pal, j - 1), j - 1);
        lemma_fs_row_err_ok(fs_propagate(src, fs_carry(src, pal, j - 1), j - 1), pal, w, w);
    }
}

/// Floored division by sixteen, as computed by an arithmetic right
/// shift of four.
fn shr4(p: i32) -> (r: i32)
    requires
        -100000 <= p <= 100000,
    ensures
        r as int == (p as int) / 16,
{
    if p >= 0 {
        p / 16
    } else {
        let t: i32 = -p;
        proof {
            lemma_fundamental_div_mod(t as int, 16);
            lemma_mod_bound(t as int, 16);
            let q0 = (t as int) / 16;
            let r0 = (t as int) % 16;
            if r0 == 0 {
                assert((t as int) + 15 == q0 * 16 + 15) by (nonlinear_arith)
                    requires
                        t as int == 16 * q0 + r0,
                        r0 == 0,
                ;
                lemma_fundamental_div_mod_converse_div((t as int) + 15, 16, q0, 15);
                assert((p as int) == (-q0) * 16 + 0) by (nonlinear_arith)
                    requires
                        t as int == 16 * q0 + r0,
                        r0 == 0,
                        p as int == -(t as int),
                ;
                lemma_fundamental_div_mod_converse_div(p as int, 16, -q0, 0);
            } else {
                assert((t as int) + 15 == (q0 + 1) * 16 + (r0 - 1)) by (nonlinear_arith)
                    requires
                        t as int == 16 * q0 + r0,
                ;
                lemma_fundamental_div_mod_converse_div((t as int) + 15, 16, q0 + 1, r0 - 1);
                assert((p as int) == (-q0 - 1) * 16 + (16 - r0)) by (nonlinear_arith)
                    requires
                        t as int == 16 * q0 + r0,
                        p as int == -(t as int),
                ;
                lemma_fundamental_div_mod_converse_div(p as int, 16, -q0 - 1, 16 - r0);
            }
        }
        let q: i32 = (t + 15) / 16;
        -q
    }
}

/// Clamp an accumulator value into byte range.
fn clamp255_exec(v: i32) -> (r: i32)
    ensures
        r as int == clamp255(v as int),
        0 <= r <= 255,
{
    if v < 0 {
        0
    } else if v > 255 {
        255
    } else {
        v
    }
}

/// The error state in the middle of carrying a finished row into the
/// next one: columns before `i` are propagated in every block, the rest
/// still hold the carry.
pub open spec fn prop_partial_at(pj: Seq<int>, cj: Seq<int>, w: int, i: int, k: int) -> int {
    if k < w {
        if k < i {
            pj[k]
        } else {
            cj[k]
        }
    } else if k < 2 * w {
        if k < w + i {
            0
        } else {
            cj[k]
        }
    } else if k < 3 * w {
        if k < 2 * w + i {
            pj[k]
        } else {
            cj[k]
        }
    } else if k < 4 * w {
        if k < 3 * w + i {
            0
        } else {
            cj[k]
        }
    } else if k < 5 * w {
        if k < 4 * w + i {
            pj[k]
        } else {
            cj[k]
        }
    } else {
        if k < 5 * w + i {
            0
        } else {
            cj[k]
        }
    }
}

/// Processes one column of one row of the error-diffusion dither:
/// clamps and stores the column's accumulators, writes the nearest
/// palette color to the image, and diffuses the residuals.
#[verifier::rlimit(100)]
fn fs_dither_column<T: BasicRgbImage>(
    image: &mut T,
    err: &mut Vec<i32>,
    palette: &Vec<[u8; 3]>,
    i: u32,
    j: u32,
    Ghost(e): Ghost<Seq<int>>,
)
    requires
        palette.len() >= 1,
        i < old(image).img_width(),
        j < old(image).img_height(),
        (old(image).img_width() as int) * 6 <= usize::MAX as int,
        old(err).len() == 6 * (old(image).img_width() as int),
        forall|k: int|
            #![trigger old(err)@[k]]
            0 <= k < 6 * (old(image).img_width() as int) ==> old(err)@[k] as int == e[k],
        fs_row_ok(e, old(image).img_width() as int, i as int),
    ensures
        final(image).img_width() == old(image).img_width(),
        final(image).img_height() == old(image).img_height(),
        final(err).len() == old(err).len(),
        forall|k: int|
            #![trigger final(err)@[k]]
            0 <= k < 6 * (old(image).img_width() as int) ==> final(err)@[k] as int == fs_step(
                e,
                palette@,
                old(image).img_width() as int,
                i as int,
            )[k],
        final(image).img_pixel(i as int, j as int) == palette@[fs_choice(
            e,
            palette@,
            old(image).img_width() as int,
            i as int,
        )]@,
        forall|i2: int, j2: int|
            0 <= i2 < old(image).img_width() && 0 <= j2 < old(image).img_height() && !(i2
                == i && j2 == j) ==> final(image).img_pixel(i2, j2) == old(image).img_pixel(
                i2,
                j2,
            ),
{
    let w = image.width();
    let uw: usize = w as usize;
    let ghost wi = w as int;
    proof {
        assert(fs_cell_ok(e[i as int], e[wi + i], i as int, i as int));
        assert(fs_cell_ok(e[2 * wi + i], e[3 * wi + i], i as int, i as int));
        assert(fs_cell_ok(e[4 * wi + i], e[5 * wi + i], i as int, i as int));
        if i + 1 < w {
            assert(fs_cell_ok(e[i as int + 1], e[wi + i + 1], i as int, i as int + 1));
            assert(fs_cell_ok(e[2 * wi + i + 1], e[3 * wi + i + 1], i as int, i as int + 1));
            assert(fs_cell_ok(e[4 * wi + i + 1], e[5 * wi + i + 1], i as int, i as int + 1));
        }
        if i >= 1 {
            assert(fs_cell_ok(e[i as int - 1], e[wi + i - 1], i as int, i as int - 1));
            assert(fs_cell_ok(e[2 * wi + i - 1], e[3 * wi + i - 1], i as int, i as int - 1));
            assert(fs_cell_ok(e[4 * wi + i - 1], e[5 * wi + i - 1], i as int, i as int - 1));
        }
    }
    let ui: usize = i as usize;
    let vr: i32 = clamp255_exec(err[ui]);
    let vg: i32 = clamp255_exec(err[2 * uw + ui]);
    let vb: i32 = clamp255_exec(err[4 * uw + ui]);
    err[ui] = vr;
    err[2 * uw + ui] = vg;
    err[4 * uw + ui] = vb;
    let idx: usize = nearestrgb3(palette, vr as u8, vg as u8, vb as u8);
    proof {
        lemma_nearest_in_range(palette@, vr as int, vg as int, vb as int, palette.len() as int);
    }
    image.put_pixel(i, j, palette[idx]);
    let rr: i32 = vr - palette[idx][0] as i32;
    let rg: i32 = vg - palette[idx][1] as i32;
    let rb: i32 = vb - palette[idx][2] as i32;
    if i + 1 < w {
        let t = err[ui + 1] + shr4(rr * 7);
        err[ui + 1] = t;
    }
    if i >= 1 {
        let t = err[uw + ui - 1] + shr4(rr * 3);
        err[uw + ui - 1] = t;
    }
    let t = err[uw + ui] + shr4(rr * 5);
    err[uw + ui] = t;
    if i + 1 < w {
        let t = err[uw + ui + 1] + shr4(rr);
        err[uw + ui + 1] = t;
    }
    if i + 1 < w {
        let t = err[2 * uw + ui + 1] + shr4(rg * 7);
        err[2 * uw + ui + 1] = t;
    }
    if i >= 1 {
        let t = err[3 * uw + ui - 1] + shr4(rg * 3);
        err[3 * uw + ui - 1] = t;
    }
    let t = err[3 * uw + ui] + shr4(rg * 5);
    err[3 * uw + ui] = t;
    if i + 1 < w {
        let t = err[3 * uw + ui + 1] + shr4(rg);
        err[3 * uw + ui + 1] = t;
    }
    if i + 1 < w {
        let t = err[4 * uw + ui + 1] + shr4(rb * 7);
        err[4 * uw + ui + 1] = t;
    }
    if i >= 1 {
        let t = err[5 * uw + ui - 1] + shr4(rb * 3);
        err[5 * uw + ui - 1] = t;
    }
    let t = err[5 * uw + ui] + shr4(rb * 5);
    err[5 * uw + ui] = t;
    if i + 1 < w {
        let t = err[5 * uw + ui + 1] + shr4(rb);
        err[5 * uw + ui + 1] = t;
    }
    proof {
        assert forall|k: int| 0 <= k < 6 * wi implies err@[k] as int == fs_step(
            e,
            palette@,
            wi,
            i as int,
        )[k] by {
            assert(fs_step(e, palette@, wi, i as int)[k] == fs_step_at(e, palette@, wi, i as int, k));
        }
    }
}

/// Dithers the image to the given palette by Floyd-Steinberg error
/// diffusion: row by row, prior carried error is added to each pixel,
/// the result is clamped and replaced by the nearest palette color, and
/// the quantization residual is diffused to the unprocessed neighbors
/// with the 7/16, 3/16, 5/16, 1/16 shift-based weights.  A zero-area
/// image is left untouched whatever the palette, even an empty one;
/// only real work demands a nonempty palette.
#[verifier::rlimit(100)]
pub fn floyd_steinberg_dither<T: BasicRgbImage>(image: &mut T, palette: &Vec<[u8; 3]>)
    requires
        old(image).img_width() > 0 && old(image).img_height() > 0 ==> palette.len() >= 1 && (old(
            image,
        ).img_width() as int) * 6 <= usize::MAX as int,
    ensures
        final(image).img_width() == old(image).img_width(),
        final(image).img_height() == old(image).img_height(),
        forall|i: int, j: int|
            0 <= i < old(image).img_width() && 0 <= j < old(image).img_height()
                ==> final(image).img_pixel(i, j) == fs_output_pixel(*old(image), palette@, i, j),
{
    let w = image.width();
    let h = image.height();
    if w == 0 || h == 0 {
        return ;
    }
    let uw: usize = w as usize;
    let mut err: Vec<i32> = Vec::new();
    while err.len() < 6 * uw
        invariant
            err.len() <= 6 * uw,
            uw == w,
            (w as int) * 6 <= usize::MAX as int,
            forall|k: int| 0 <= k < err.len() ==> err@[k] == 0i32,
        decreases 6 * uw - err.len(),
    {
        err.push(0);
    }
    let mut j: u32 = 0;
    while j < h
        invariant
            1 <= w,
            1 <= h,
            uw == w,
            (w as int) * 6 <= usize::MAX as int,
            palette.len() >= 1,
            j <= h,
            w == image.img_width(),
            h == image.img_height(),
            image.img_width() == old(image).img_width(),
            image.img_height() == old(image).img_height(),
            err.len() == 6 * uw,
            forall|k: int|
                0 <= k < 6 * (w as int) ==> err@[k] as int == fs_carry(
                    *old(image),
                    palette@,
                    j as int,
                )[k],
            forall|i: int, jj: int|
                0 <= i < w && 0 <= jj < j ==> image.img_pixel(i, jj) == fs_output_pixel(
                    *old(image),
                    palette@,
                    i,
                    jj,
                ),
            forall|i: int, jj: int|
                0 <= i < w && j <= jj < h ==> image.img_pixel(i, jj) == old(image).img_pixel(i, jj),
        decreases h - j,
    {
        let ghost src = *old(image);
        let ghost cj = fs_carry(src, palette@, j as int);
        let ghost pj = fs_propagate(src, cj, j as int);
        proof {
            lemma_fs_carry_ok(src, palette@, j as int);
            lemma_fs_propagate_ok(src, cj, j as int);
        }
        let mut i: u32 = 0;
        while i < w
            invariant
                1 <= w,
                uw == w,
                i <= w,
                j < h,
                (w as int) * 6 <= usize::MAX as int,
                w == image.img_width(),
                h == image.img_height(),
                err.len() == 6 * uw,
                src == *old(image),
                src.img_width() == w,
                j < h,
                h == image.img_height(),
                palette.len() >= 1,
                cj == fs_carry(src, palette@, j as int),
                pj == fs_propagate(src, cj, j as int),
                fs_row_ok(cj, w as int, w as int),
                fs_row_ok(pj, w as int, 0),
                forall|i2: int, jj: int|
                    0 <= i2 < w && j <= jj < h ==> image.img_pixel(i2, jj) == src.img_pixel(i2, jj),
                cj.len() == 6 * (w as int),
                forall|k: int|
                    #![trigger err@[k]]
                    0 <= k < 6 * (w as int) ==> err@[k] as int == prop_partial_at(
                        pj,
                        cj,
                        w as int,
                        i as int,
                        k,
                    ),
            decreases w - i,
        {
            let ui: usize = i as usize;
            let cr = image.get_pixel(i, j);
            proof {
                assert(fs_cell_ok(cj[i as int], cj[(w as int) + i], w as int, i as int));
                assert(fs_cell_ok(
                    cj[2 * (w as int) + i],
                    cj[3 * (w as int) + i],
                    w as int,
                    i as int,
                ));
                assert(fs_cell_ok(
                    cj[4 * (w as int) + i],
                    cj[5 * (w as int) + i],
                    w as int,
                    i as int,
                ));
            }
            proof {
                assert(err@[(w as int) + i] as int == cj[(w as int) + i]);
                assert(err@[3 * (w as int) + i] as int == cj[3 * (w as int) + i]);
                assert(err@[5 * (w as int) + i] as int == cj[5 * (w as int) + i]);
            }
            let v0: i32 = err[uw + ui] + cr[0] as i32;
            err[ui] = v0;
            err[uw + ui] = 0;
            let v1: i32 = err[3 * uw + ui] + cr[1] as i32;
            err[2 * uw + ui] = v1;
            err[3 * uw + ui] = 0;
            let v2: i32 = err[5 * uw + ui] + cr[2] as i32;
            err[4 * uw + ui] = v2;
            err[5 * uw + ui] = 0;
            proof {
                assert forall|k: int| 0 <= k < 6 * (w as int) implies err@[k] as int
                    == prop_partial_at(pj, cj, w as int, i as int + 1, k) by {
                    assert(pj[i as int] == cj[(w as int) + i] + src.img_pixel(i as int, j as int)[0]);
                    assert(pj[2 * (w as int) + i] == cj[3 * (w as int) + i] + src.img_pixel(
                        i as int,
                        j as int,
                    )[1]);
                    assert(pj[4 * (w as int) + i] == cj[5 * (w as int) + i] + src.img_pixel(
                        i as int,
                        j as int,
                    )[2]);
                }
            }
            i = i + 1;
        }
        let mut i: u32 = 0;
        while i < w
            invariant
                1 <= w,
                1 <= h,
                uw == w,
                i <= w,
                j < h,
                palette.len() >= 1,
                (w as int) * 6 <= usize::MAX as int,
                w == image.img_width(),
                h == image.img_height(),
                image.img_width() == old(image).img_width(),
                image.img_height() == old(image).img_height(),
                src == *old(image),
                src.img_width() == w,
                src.img_height() == h,
                err.len() == 6 * uw,
                cj == fs_carry(src, palette@, j as int),
                pj == fs_propagate(src, cj, j as int),
                fs_row_ok(pj, w as int, 0),
                forall|k: int|
                    #![trigger err@[k]]
                    0 <= k < 6 * (w as int) ==> err@[k] as int == fs_row_err(
                        pj,
                        palette@,
                        w as int,
                        i as int,
                    )[k],
                forall|i2: int, jj: int|
                    0 <= i2 < w && 0 <= jj < j ==> image.img_pixel(i2, jj) == fs_output_pixel(
                        src,
                        palette@,
                        i2,
                        jj,
                    ),
                forall|i2: int|
                    0 <= i2 < i ==> image.img_pixel(i2, j as int) == fs_output_pixel(
                        src,
                        palette@,
                        i2,
                        j as int,
                    ),
                forall|i2: int, jj: int|
                    0 <= i2 < w && j < jj < h ==> image.img_pixel(i2, jj) == src.img_pixel(i2, jj),
                forall|i2: int|
                    i <= i2 < w ==> image.img_pixel(i2, j as int) == src.img_pixel(i2, j as int),
            decreases w - i,
        {
            let ghost ei = fs_row_err(pj, palette@, w as int, i as int);
            proof {
                lemma_fs_row_err_ok(pj, palette@, w as int, i as int);
            }
            fs_dither_column(image, &mut err, palette, i, j, Ghost(ei));
            proof {
                assert(fs_row_err(pj, palette@, w as int, i as int + 1) == fs_step(
                    ei,
                    palette@,
                    w as int,
                    i as int,
                ));
            }
            i = i + 1;
        }
        j = j + 1;
    }
}

/// LAW — palette closure.  Every pixel the error-diffusion dither
/// writes is exactly one of the palette entries.
pub proof fn lemma_fs_output_in_palette<T: BasicRgbImage>(src: T, pal: Seq<[u8; 3]>, i: int, j: int)
    requires
        pal.len() >= 1,
    ensures
        exists|k: int| 0 <= k < pal.len() && fs_output_pixel(src, pal, i, j) == pal[k]@,
{
    let w = src.img_width() as int;
    let e = fs_row_err(fs_propagate(src, fs_carry(src, pal, j), j), pal, w, i);
    let c = fs_choice(e, pal, w, i);
    lemma_nearest_in_range(
        pal,
        clamp255(e[i]),
        clamp255(e[2 * w + i]),
        clamp255(e[4 * w + i]),
        pal.len() as int,
    );
    assert(0 <= c < pal.len() && fs_output_pixel(src, pal, i, j) == pal[c]@);
}

} // verus!
