use desktopwallpaper::basicrgbimage::BasicRgbImage;
use desktopwallpaper::basicrgbimage::BasicRgbImageData;
use desktopwallpaper::frac::Coord;
use desktopwallpaper::remap::WallpaperGroup;
use desktopwallpaper::sample::imagept;
use desktopwallpaper::sample::wallpaper_image;

fn co(num: i128, den: u64) -> Coord {
    Coord { num, den }
}

fn two_by_two() -> BasicRgbImageData {
    let mut img = BasicRgbImageData::new(2, 2);
    img.put_pixel(0, 0, [10, 0, 0]);
    img.put_pixel(1, 0, [0, 20, 0]);
    img.put_pixel(0, 1, [0, 0, 30]);
    img.put_pixel(1, 1, [40, 40, 40]);
    img
}

#[test]
fn test_imagept_integer_coordinates() {
    let img = two_by_two();
    assert_eq!(imagept(&img, co(0, 1), co(0, 1)), [10, 0, 0]);
    assert_eq!(imagept(&img, co(1, 1), co(0, 1)), [0, 20, 0]);
    assert_eq!(imagept(&img, co(0, 1), co(1, 1)), [0, 0, 30]);
    assert_eq!(imagept(&img, co(1, 1), co(1, 1)), [40, 40, 40]);
}

#[test]
fn test_imagept_wraparound() {
    let img = two_by_two();
    // out-of-range coordinates wrap as in an infinite tiling
    assert_eq!(imagept(&img, co(2, 1), co(0, 1)), [10, 0, 0]);
    assert_eq!(imagept(&img, co(-1, 1), co(0, 1)), [0, 20, 0]);
    assert_eq!(imagept(&img, co(0, 1), co(-2, 1)), [10, 0, 0]);
    assert_eq!(imagept(&img, co(-3, 1), co(-3, 1)), [40, 40, 40]);
}

#[test]
fn test_imagept_zero_area_black() {
    let img = BasicRgbImageData::new(0, 4);
    assert_eq!(imagept(&img, co(3, 2), co(1, 2)), [0, 0, 0]);
    let img = BasicRgbImageData::new(4, 0);
    assert_eq!(imagept(&img, co(3, 2), co(1, 2)), [0, 0, 0]);
}

#[test]
fn test_imagept_fraction_blends_as_stored() {
    let mut img = BasicRgbImageData::new(2, 1);
    img.put_pixel(0, 0, [0, 0, 0]);
    img.put_pixel(1, 0, [100, 200, 50]);
    // the y fraction advances toward the second column in the stored
    // layout, so a fractional y blends the two pixels of this row pair
    assert_eq!(imagept(&img, co(0, 1), co(1, 2)), [50, 100, 25]);
    // while a fractional x advances toward the next row, which on a
    // one-row image wraps to the same pixel
    assert_eq!(imagept(&img, co(1, 2), co(0, 1)), [0, 0, 0]);
}

#[test]
fn test_imagept_quarter_blend() {
    let mut img = BasicRgbImageData::new(2, 1);
    img.put_pixel(0, 0, [0, 0, 0]);
    img.put_pixel(1, 0, [100, 201, 51]);
    // a quarter of the way toward the second pixel, floored
    assert_eq!(imagept(&img, co(0, 1), co(1, 4)), [25, 50, 12]);
}

#[test]
fn test_wallpaper_image_pmm_quarters() {
    let img = two_by_two();
    let out: BasicRgbImageData = wallpaper_image(4, 4, &img, [0, 0, 2, 2], WallpaperGroup::Pmm);
    assert_eq!(out.width(), 4);
    assert_eq!(out.height(), 4);
    // pmm remaps every destination pixel into the upper-left quarter of
    // the source rectangle and mirrors it; with integer scaling each
    // destination pixel lands exactly on a source pixel
    for y in 0..4u32 {
        for x in 0..4u32 {
            let p = out.get_pixel(x, y);
            assert!(p == [10, 0, 0] || p == [0, 20, 0] || p == [0, 0, 30] || p == [40, 40, 40]);
        }
    }
    // destination columns 1 and 3 mirror about the midline, as do rows
    // 1 and 3: that reflection is what makes the tiling seamless
    assert_eq!(out.get_pixel(0, 0), [10, 0, 0]);
    assert_eq!(out.get_pixel(1, 0), out.get_pixel(3, 0));
    assert_eq!(out.get_pixel(0, 1), out.get_pixel(0, 3));
    assert_eq!(out.get_pixel(1, 1), out.get_pixel(3, 3));
}

#[test]
fn test_wallpaper_image_identity_slots() {
    // with a destination the size of the source rectangle and the
    // identity-like pmm on the first quadrant, pixel (0,0) samples the
    // rectangle origin
    let img = two_by_two();
    let out: BasicRgbImageData = wallpaper_image(2, 2, &img, [1, 1, 3, 3], WallpaperGroup::Pmm);
    assert_eq!(out.get_pixel(0, 0), [40, 40, 40]);
}

#[test]
fn test_wallpaper_image_all_groups() {
    let img = two_by_two();
    let groups = [
        WallpaperGroup::Pmm,
        WallpaperGroup::P4m,
        WallpaperGroup::P4mAlt,
        WallpaperGroup::P3m1,
        WallpaperGroup::P6m,
        WallpaperGroup::P6mAlt,
        WallpaperGroup::P3m1Alt1,
        WallpaperGroup::P3m1Alt2,
        WallpaperGroup::P6mAlt1a,
        WallpaperGroup::P6mAlt1b,
        WallpaperGroup::P6mAlt2a,
        WallpaperGroup::P6mAlt2b,
    ];
    for g in groups {
        let out: BasicRgbImageData = wallpaper_image(5, 7, &img, [-1, -1, 3, 3], g);
        assert_eq!(out.width(), 5);
        assert_eq!(out.height(), 7);
        // every channel is a blend of stored channel values, so it
        // stays within their range
        for y in 0..7 {
            for x in 0..5 {
                let p = out.get_pixel(x, y);
                assert!(p[0] <= 40 && p[1] <= 40 && p[2] <= 40);
            }
        }
    }
}

#[test]
fn test_wallpaper_image_zero_size() {
    // a zero destination width or height yields the empty image
    let img = two_by_two();
    let out: BasicRgbImageData = wallpaper_image(0, 3, &img, [0, 0, 2, 2], WallpaperGroup::Pmm);
    assert_eq!(out.width(), 0);
    assert_eq!(out.height(), 3);
    let out: BasicRgbImageData = wallpaper_image(3, 0, &img, [0, 0, 2, 2], WallpaperGroup::P3m1);
    assert_eq!(out.width(), 3);
    assert_eq!(out.height(), 0);
}
