//! Mixed-sign helper arithmetic, the classic palette, and the
//! bordered-box primitive drawer.
use crate::basicrgbimage::BasicRgbImage;
use vstd::arithmetic::div_mod::lemma_fundamental_div_mod;
use vstd::arithmetic::div_mod::lemma_fundamental_div_mod_converse_mod;
use vstd::arithmetic::div_mod::lemma_mod_bound;
use vstd::prelude::*;

verus! {

/// Euclidean remainder of a negative value, in terms of the remainder
/// of its negation.
pub(crate) proof fn lemma_neg_mod(a: int, m: int)
    requires
        m > 0,
        a < 0,
    ensures
        (-a) % m == 0 ==> a % m == 0,
        (-a) % m != 0 ==> a % m == m - ((-a) % m),
{
    let t = (-a) % m;
    let q = (-a) / m;
    lemma_fundamental_div_mod(-a, m);
    lemma_mod_bound(-a, m);
    if t == 0 {
        assert(a == (-q) * m + 0) by (nonlinear_arith)
            requires
                -a == m * q + t,
                t == 0,
        ;
        lemma_fundamental_div_mod_converse_mod(a, m, -q, 0);
    } else {
        assert(a == (-q - 1) * m + (m - t)) by (nonlinear_arith)
            requires
                -a == m * q + t,
        ;
        lemma_fundamental_div_mod_converse_mod(a, m, -q - 1, m - t);
    }
}

/// Minimum of a 32-bit signed integer and a 32-bit unsigned integer,
/// expressed as a 32-bit signed integer.
pub fn _min32(a: i32, b: u32) -> (r: i32)
    ensures
        r as int == if (a as int) <= (b as int) {
            a as int
        } else {
            b as int
        },
{
    if a < 0 {
        a
    } else {
        let au: u32 = a as u32;
        if au <= b {
            a
        } else {
            b as i32
        }
    }
}

/// Euclidean modulus of a 32-bit signed integer by a 32-bit unsigned
/// integer: a negative input wraps to the correct positive residue,
/// unlike the truncating remainder.
pub fn _mod32(a: i32, b: u32) -> (r: u32)
    requires
        b >= 1,
    ensures
        r as int == (a as int) % (b as int),
        r < b,
{
    proof {
        lemma_mod_bound(a as int, b as int);
    }
    if a >= 0 {
        (a as u32) % b
    } else {
        let au: u32 = (-(a as i64)) as u32;
        let ret: u32 = au % b;
        proof {
            lemma_neg_mod(a as int, b as int);
        }
        if ret != 0 {
            b - ret
        } else {
            0
        }
    }
}

/// The sixteen colors of the classic VGA palette, by index.
pub open spec fn classic_at(i: int) -> Seq<u8> {
    if i == 0 {
        seq![0u8, 0u8, 0u8]
    } else if i == 1 {
        seq![128u8, 128u8, 128u8]
    } else if i == 2 {
        seq![192u8, 192u8, 192u8]
    } else if i == 3 {
        seq![255u8, 0u8, 0u8]
    } else if i == 4 {
        seq![128u8, 0u8, 0u8]
    } else if i == 5 {
        seq![0u8, 255u8, 0u8]
    } else if i == 6 {
        seq![0u8, 128u8, 0u8]
    } else if i == 7 {
        seq![0u8, 0u8, 255u8]
    } else if i == 8 {
        seq![0u8, 0u8, 128u8]
    } else if i == 9 {
        seq![255u8, 0u8, 255u8]
    } else if i == 10 {
        seq![128u8, 0u8, 128u8]
    } else if i == 11 {
        seq![0u8, 255u8, 255u8]
    } else if i == 12 {
        seq![0u8, 128u8, 128u8]
    } else if i == 13 {
        seq![255u8, 255u8, 0u8]
    } else if i == 14 {
        seq![128u8, 128u8, 0u8]
    } else {
        seq![255u8, 255u8, 255u8]
    }
}

/// The classic sixteen-color VGA palette, black first and white last.
pub fn classiccolors() -> (r: Vec<[u8; 3]>)
    ensures
        r.len() == 16,
        forall|i: int| 0 <= i < 16 ==> r@[i]@ == classic_at(i),
{
    let mut v: Vec<[u8; 3]> = Vec::new();
    v.push([0, 0, 0]);
    v.push([128, 128, 128]);
    v.push([192, 192, 192]);
    v.push([255, 0, 0]);
    v.push([128, 0, 0]);
    v.push([0, 255, 0]);
    v.push([0, 128, 0]);
    v.push([0, 0, 255]);
    v.push([0, 0, 128]);
    v.push([255, 0, 255]);
    v.push([128, 0, 128]);
    v.push([0, 255, 255]);
    v.push([0, 128, 128]);
    v.push([255, 255, 0]);
    v.push([128, 128, 0]);
    v.push([255, 255, 255]);
    proof {
        assert forall|i: int| 0 <= i < 16 implies v@[i]@ == classic_at(i) by {
            if i == 0 {
                assert(v@[0]@ =~= classic_at(0));
            } else if i == 1 {
                assert(v@[1]@ =~= classic_at(1));
            } else if i == 2 {
                assert(v@[2]@ =~= classic_at(2));
            } else if i == 3 {
                assert(v@[3]@ =~= classic_at(3));
            } else if i == 4 {
                assert(v@[4]@ =~= classic_at(4));
            } else if i == 5 {
                assert(v@[5]@ =~= classic_at(5));
            } else if i == 6 {
                assert(v@[6]@ =~= classic_at(6));
            } else if i == 7 {
                assert(v@[7]@ =~= classic_at(7));
            } else if i == 8 {
                assert(v@[8]@ =~= classic_at(8));
            } else if i == 9 {
                assert(v@[9]@ =~= classic_at(9));
            } else if i == 10 {
                assert(v@[10]@ =~= classic_at(10));
            } else if i == 11 {
                assert(v@[11]@ =~= classic_at(11));
            } else if i == 12 {
                assert(v@[12]@ =~= classic_at(12));
            } else if i == 13 {
                assert(v@[13]@ =~= classic_at(13));
            } else if i == 14 {
                assert(v@[14]@ =~= classic_at(14));
            } else {
                assert(v@[15]@ =~= classic_at(15));
            }
        }
    }
    v
}

/// The largest source coordinate below `hi` that lands on target cell
/// `t` after wrapping modulo `m`.  It lies in `(hi - 1 - m, hi - 1]`;
/// the draw covers `t` exactly when it also reaches down to `lo`.
pub open spec fn last_hit(t: int, lo: int, hi: int, m: int) -> int {
    hi - 1 - ((hi - 1 - t) % m)
}

/// Whether some source coordinate in `[lo, hi)` lands on target cell
/// `t` after wrapping modulo `m`.
pub open spec fn box_covers(t: int, lo: int, hi: int, m: int) -> bool {
    lo < hi && last_hit(t, lo, hi, m) >= lo
}

/// Effective lower draw bound: unchanged with wraparound, else clamped
/// to the image.
pub open spec fn eff_lo(v: int, wraparound: bool) -> int {
    if wraparound || v >= 0 {
        v
    } else {
        0
    }
}

/// Effective upper draw bound: unchanged with wraparound, else clamped
/// to the image dimension `m`.
pub open spec fn eff_hi(v: int, m: int, wraparound: bool) -> int {
    if wraparound || v <= m {
        v
    } else {
        m
    }
}

/// Whether a bordered-box call draws nothing: a zero-area image, a
/// degenerate rectangle, or a clamped-empty rectangle.
pub open spec fn box_no_draw(rect: [i32; 4], w: int, h: int, wraparound: bool) -> bool {
    w == 0 || h == 0 || rect[0] == rect[2] || rect[1] == rect[3] || (!wraparound && (eff_lo(
        rect[0] as int,
        false,
    ) >= eff_hi(rect[2] as int, w, false) || eff_lo(rect[1] as int, false) >= eff_hi(
        rect[3] as int,
        h,
        false,
    )))
}

/// The color a bordered checkerboard box paints at target `(tx, ty)`:
/// the border color if the last covering source coordinate lies on any
/// edge of the rectangle, else one of the two checkerboard colors by
/// the parity of the target coordinates.
pub open spec fn box_paint(
    border: Option<[u8; 3]>,
    color1: [u8; 3],
    color2: [u8; 3],
    x0: int,
    y0: int,
    x1: int,
    y1: int,
    lastx: int,
    lasty: int,
    tx: int,
    ty: int,
) -> Seq<u8> {
    match border {
        Some(bc) => if lasty == y0 || lasty == y1 - 1 || lastx == x0 || lastx == x1 - 1 {
            bc@
        } else if tx % 2 == ty % 2 {
            color1@
        } else {
            color2@
        },
        None => if tx % 2 == ty % 2 {
            color1@
        } else {
            color2@
        },
    }
}

/// The pixel a bordered-box draw leaves at target `(tx, ty)` of a
/// `w` by `h` image whose prior pixel there was `prior`.
pub open spec fn box_pixel(
    prior: Seq<u8>,
    w: int,
    h: int,
    border: Option<[u8; 3]>,
    color1: [u8; 3],
    color2: [u8; 3],
    rect: [i32; 4],
    wraparound: bool,
    tx: int,
    ty: int,
) -> Seq<u8> {
    let x0 = eff_lo(rect[0] as int, wraparound);
    let y0 = eff_lo(rect[1] as int, wraparound);
    let x1 = eff_hi(rect[2] as int, w, wraparound);
    let y1 = eff_hi(rect[3] as int, h, wraparound);
    if box_no_draw(rect, w, h, wraparound) {
        prior
    } else if box_covers(tx, x0, x1, w) && box_covers(ty, y0, y1, h) {
        box_paint(
            border,
            color1,
            color2,
            x0,
            y0,
            x1,
            y1,
            last_hit(tx, x0, x1, w),
            last_hit(ty, y0, y1, h),
            tx,
            ty,
        )
    } else {
        prior
    }
}

/// The pixel a bordered-box draw leaves at target `(tx, ty)`.
pub open spec fn box_result<T: BasicRgbImage>(
    img: T,
    border: Option<[u8; 3]>,
    color1: [u8; 3],
    color2: [u8; 3],
    rect: [i32; 4],
    wraparound: bool,
    tx: int,
    ty: int,
) -> Seq<u8> {
    box_pixel(
        img.img_pixel(tx, ty),
        img.img_width() as int,
        img.img_height() as int,
        border,
        color1,
        color2,
        rect,
        wraparound,
        tx,
        ty,
    )
}

/// How the last hit before `v + 1` relates to the last hit before `v`:
/// the cell `v` lands on gets `v` itself, every other cell keeps its
/// previous last hit.
proof fn lemma_hit_step(t: int, lo: int, v: int, m: int)
    requires
        m >= 1,
        0 <= t < m,
    ensures
        t == v % m ==> last_hit(t, lo, v + 1, m) == v,
        t != v % m ==> last_hit(t, lo, v + 1, m) == last_hit(t, lo, v, m),
{
    lemma_fundamental_div_mod(v, m);
    lemma_mod_bound(v, m);
    let q = v / m;
    let r = v % m;
    if t == r {
        assert(v - t == q * m + 0) by (nonlinear_arith)
            requires
                v == m * q + r,
                t == r,
        ;
        lemma_fundamental_div_mod_converse_mod(v - t, m, q, 0);
    } else if t < r {
        assert(v - t == q * m + (r - t)) by (nonlinear_arith)
            requires
                v == m * q + r,
        ;
        lemma_fundamental_div_mod_converse_mod(v - t, m, q, r - t);
        assert(v - 1 - t == q * m + (r - t - 1)) by (nonlinear_arith)
            requires
                v == m * q + r,
        ;
        lemma_fundamental_div_mod_converse_mod(v - 1 - t, m, q, r - t - 1);
    } else {
        assert(v - t == (q - 1) * m + (m + r - t)) by (nonlinear_arith)
            requires
                v == m * q + r,
        ;
        lemma_fundamental_div_mod_converse_mod(v - t, m, q - 1, m + r - t);
        assert(v - 1 - t == (q - 1) * m + (m + r - t - 1)) by (nonlinear_arith)
            requires
                v == m * q + r,
        ;
        lemma_fundamental_div_mod_converse_mod(v - 1 - t, m, q - 1, m + r - t - 1);
    }
}

/// Draws a checkerboard-pattern rectangle (the parity of the wrapped
/// target coordinates selects `color1` or `color2`) with an optional
/// one-pixel border override on all four edges.  When `wraparound` is
/// false the rectangle is clamped to the image and a fully
/// out-of-bounds rectangle draws nothing; when true every coordinate is
/// wrapped modulo the image dimensions, negative inputs wrapping to the
/// correct positive residue.  Degenerate rectangles draw nothing.
pub fn borderedbox<T: BasicRgbImage>(
    image: &mut T,
    border: Option<[u8; 3]>,
    color1: [u8; 3],
    color2: [u8; 3],
    rect: [i32; 4],
    wraparound: bool,
)
    requires
        rect[0] <= rect[2],
        rect[1] <= rect[3],
    ensures
        final(image).img_width() == old(image).img_width(),
        final(image).img_height() == old(image).img_height(),
        forall|tx: int, ty: int|
            0 <= tx < old(image).img_width() && 0 <= ty < old(image).img_height()
                ==> final(image).img_pixel(tx, ty) == box_result(
                *old(image),
                border,
                color1,
                color2,
                rect,
                wraparound,
                tx,
                ty,
            ),
{
    let w = image.width();
    let h = image.height();
    if w == 0 || h == 0 {
        return ;
    }
    let mut x0: i32 = rect[0];
    let mut y0: i32 = rect[1];
    let mut x1: i32 = rect[2];
    let mut y1: i32 = rect[3];
    if x0 == x1 || y0 == y1 {
        return ;
    }
    if !wraparound {
        if x0 < 0 {
            x0 = 0;
        }
        if y0 < 0 {
            y0 = 0;
        }
        x1 = _min32(x1, w);
        y1 = _min32(y1, h);
        if x0 >= x1 || y0 >= y1 {
            return ;
        }
    }
    let mut y: i32 = y0;
    while y < y1
        invariant
            1 <= w,
            1 <= h,
            x0 < x1,
            y0 <= y <= y1,
            y0 < y1,
            x0 as int == eff_lo(rect[0] as int, wraparound),
            y0 as int == eff_lo(rect[1] as int, wraparound),
            x1 as int == eff_hi(rect[2] as int, w as int, wraparound),
            y1 as int == eff_hi(rect[3] as int, h as int, wraparound),
            !box_no_draw(rect, w as int, h as int, wraparound),
            image.img_width() == old(image).img_width(),
            image.img_height() == old(image).img_height(),
            w == image.img_width(),
            h == image.img_height(),
            forall|tx: int, ty: int|
                0 <= tx < w && 0 <= ty < h ==> image.img_pixel(tx, ty) == (if box_covers(
                    tx,
                    x0 as int,
                    x1 as int,
                    w as int,
                ) && box_covers(ty, y0 as int, y as int, h as int) {
                    box_paint(
                        border,
                        color1,
                        color2,
                        x0 as int,
                        y0 as int,
                        x1 as int,
                        y1 as int,
                        last_hit(tx, x0 as int, x1 as int, w as int),
                        last_hit(ty, y0 as int, y as int, h as int),
                        tx,
                        ty,
                    )
                } else {
                    old(image).img_pixel(tx, ty)
                }),
        decreases y1 - y,
    {
        let ypp: u32 = _mod32(y, h);
        let mut x: i32 = x0;
        while x < x1
            invariant
                1 <= w,
                1 <= h,
                x0 <= x <= x1,
                x0 < x1,
                y0 <= y < y1,
                y0 < y1,
                ypp as int == (y as int) % (h as int),
                ypp < h,
                x0 as int == eff_lo(rect[0] as int, wraparound),
                y0 as int == eff_lo(rect[1] as int, wraparound),
                x1 as int == eff_hi(rect[2] as int, w as int, wraparound),
                y1 as int == eff_hi(rect[3] as int, h as int, wraparound),
                !box_no_draw(rect, w as int, h as int, wraparound),
                image.img_width() == old(image).img_width(),
                image.img_height() == old(image).img_height(),
                w == image.img_width(),
                h == image.img_height(),
                forall|tx: int, ty: int|
                    0 <= tx < w && 0 <= ty < h ==> image.img_pixel(tx, ty) == (if ty == ypp
                        && box_covers(tx, x0 as int, x as int, w as int) {
                        box_paint(
                            border,
                            color1,
                            color2,
                            x0 as int,
                            y0 as int,
                            x1 as int,
                            y1 as int,
                            last_hit(tx, x0 as int, x as int, w as int),
                            y as int,
                            tx,
                            ty,
                        )
                    } else if box_covers(tx, x0 as int, x1 as int, w as int) && box_covers(
                        ty,
                        y0 as int,
                        y as int,
                        h as int,
                    ) {
                        box_paint(
                            border,
                            color1,
                            color2,
                            x0 as int,
                            y0 as int,
                            x1 as int,
                            y1 as int,
                            last_hit(tx, x0 as int, x1 as int, w as int),
                            last_hit(ty, y0 as int, y as int, h as int),
                            tx,
                            ty,
                        )
                    } else {
                        old(image).img_pixel(tx, ty)
                    }),
            decreases x1 - x,
        {
            let xp: u32 = _mod32(x, w);
            let ghost prev = *image;
            let on_border: bool = match border {
                Some(_) => y == y0 || y == y1 - 1 || x == x0 || x == x1 - 1,
                None => false,
            };
            if on_border {
                let bc: [u8; 3] = match border {
                    Some(bc) => bc,
                    None => [0, 0, 0],
                };
                image.put_pixel(xp, ypp, bc);
            } else if xp % 2 == ypp % 2 {
                image.put_pixel(xp, ypp, color1);
            } else {
                image.put_pixel(xp, ypp, color2);
            }
            proof {
                assert(image.img_pixel(xp as int, ypp as int) == box_paint(
                    border,
                    color1,
                    color2,
                    x0 as int,
                    y0 as int,
                    x1 as int,
                    y1 as int,
                    x as int,
                    y as int,
                    xp as int,
                    ypp as int,
                ));
                assert forall|tx: int, ty: int| 0 <= tx < w && 0 <= ty < h implies image.img_pixel(
                    tx,
                    ty,
                ) == (if ty == ypp && box_covers(tx, x0 as int, (x + 1) as int, w as int) {
                    box_paint(
                        border,
                        color1,
                        color2,
                        x0 as int,
                        y0 as int,
                        x1 as int,
                        y1 as int,
                        last_hit(tx, x0 as int, (x + 1) as int, w as int),
                        y as int,
                        tx,
                        ty,
                    )
                } else if box_covers(tx, x0 as int, x1 as int, w as int) && box_covers(
                    ty,
                    y0 as int,
                    y as int,
                    h as int,
                ) {
                    box_paint(
                        border,
                        color1,
                        color2,
                        x0 as int,
                        y0 as int,
                        x1 as int,
                        y1 as int,
                        last_hit(tx, x0 as int, x1 as int, w as int),
                        last_hit(ty, y0 as int, y as int, h as int),
                        tx,
                        ty,
                    )
                } else {
                    old(image).img_pixel(tx, ty)
                }) by {
                    lemma_hit_step(tx, x0 as int, x as int, w as int);
                    assert(prev.img_pixel(tx, ty) == image.img_pixel(tx, ty) || (tx == xp && ty
                        == ypp));
                }
            }
            x = x + 1;
        }
        proof {
            assert forall|tx: int, ty: int| 0 <= tx < w && 0 <= ty < h implies image.img_pixel(
                tx,
                ty,
            ) == (if box_covers(tx, x0 as int, x1 as int, w as int) && box_covers(
                ty,
                y0 as int,
                (y + 1) as int,
                h as int,
            ) {
                box_paint(
                    border,
                    color1,
                    color2,
                    x0 as int,
                    y0 as int,
                    x1 as int,
                    y1 as int,
                    last_hit(tx, x0 as int, x1 as int, w as int),
                    last_hit(ty, y0 as int, (y + 1) as int, h as int),
                    tx,
                    ty,
                )
            } else {
                old(image).img_pixel(tx, ty)
            }) by {
                lemma_hit_step(ty, y0 as int, y as int, h as int);
            }
        }
        y = y + 1;
    }
}

} // verus!
