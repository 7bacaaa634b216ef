use desktopwallpaper::basicrgbimage::BasicRgbImage;
use desktopwallpaper::basicrgbimage::BasicRgbImageData;
use desktopwallpaper::imageop::_min32;
use desktopwallpaper::imageop::_mod32;
use desktopwallpaper::imageop::borderedbox;
use desktopwallpaper::imageop::classiccolors;

#[test]
fn test_min32() {
    assert_eq!(_min32(-1, 0), -1);
    assert_eq!(_min32(0, 1), 0);
    assert_eq!(_min32(-2, u32::MAX), -2);
    assert_eq!(_min32(i32::MAX, 0), 0);
    assert_eq!(_min32(i32::MAX, u32::MAX), i32::MAX);
    assert_eq!(_min32(i32::MIN, 0), i32::MIN);
    assert_eq!(_min32(i32::MIN, u32::MAX), i32::MIN);
}

#[test]
fn test_mod32() {
    assert_eq!(_mod32(-5, 4), 3);
    assert_eq!(_mod32(-4, 4), 0);
    assert_eq!(_mod32(-3, 4), 1);
    assert_eq!(_mod32(-2, 4), 2);
    assert_eq!(_mod32(-1, 4), 3);
    assert_eq!(_mod32(0, 4), 0);
    assert_eq!(_mod32(1, 4), 1);
    assert_eq!(_mod32(2, 4), 2);
    assert_eq!(_mod32(3, 4), 3);
    assert_eq!(_mod32(4, 4), 0);
    assert_eq!(_mod32(5, 4), 1);
}

#[test]
fn test_classiccolors_contents() {
    let cc = classiccolors();
    assert_eq!(cc.len(), 16);
    assert_eq!(cc[0], [0, 0, 0]);
    assert_eq!(cc[1], [128, 128, 128]);
    assert_eq!(cc[2], [192, 192, 192]);
    assert_eq!(cc[3], [255, 0, 0]);
    assert_eq!(cc[8], [0, 0, 128]);
    assert_eq!(cc[15], [255, 255, 255]);
}

#[test]
fn test_blank_image_is_black() {
    let img = BasicRgbImageData::new(5, 4);
    assert_eq!(img.width(), 5);
    assert_eq!(img.height(), 4);
    for y in 0..4 {
        for x in 0..5 {
            assert_eq!(img.get_pixel(x, y), [0, 0, 0]);
        }
    }
}

#[test]
fn test_put_get_pixel() {
    let mut img = BasicRgbImageData::new(3, 3);
    img.put_pixel(1, 2, [9, 8, 7]);
    assert_eq!(img.get_pixel(1, 2), [9, 8, 7]);
    assert_eq!(img.get_pixel(0, 0), [0, 0, 0]);
    assert_eq!(img.get_pixel(2, 2), [0, 0, 0]);
}

#[test]
fn test_borderedbox_clipped_box() {
    let mut img = BasicRgbImageData::new(8, 8);
    borderedbox(
        &mut img,
        Some([255, 0, 0]),
        [10, 10, 10],
        [20, 20, 20],
        [0, 0, 4, 4],
        false,
    );
    assert_eq!(img.get_pixel(0, 0), [255, 0, 0]);
    assert_eq!(img.get_pixel(3, 3), [255, 0, 0]);
    assert_eq!(img.get_pixel(0, 3), [255, 0, 0]);
    let p11 = img.get_pixel(1, 1);
    assert!(p11 == [10, 10, 10] || p11 == [20, 20, 20]);
    assert_eq!(p11, [10, 10, 10]);
    assert_eq!(img.get_pixel(2, 1), [20, 20, 20]);
    assert_eq!(img.get_pixel(1, 2), [20, 20, 20]);
    assert_eq!(img.get_pixel(2, 2), [10, 10, 10]);
    assert_eq!(img.get_pixel(4, 4), [0, 0, 0]);
    assert_eq!(img.get_pixel(5, 5), [0, 0, 0]);
    assert_eq!(img.get_pixel(7, 7), [0, 0, 0]);
}

#[test]
fn test_borderedbox_degenerate_is_noop() {
    let mut img = BasicRgbImageData::new(4, 4);
    borderedbox(&mut img, None, [1, 1, 1], [2, 2, 2], [2, 1, 2, 3], false);
    borderedbox(&mut img, None, [1, 1, 1], [2, 2, 2], [1, 2, 3, 2], true);
    for y in 0..4 {
        for x in 0..4 {
            assert_eq!(img.get_pixel(x, y), [0, 0, 0]);
        }
    }
}

#[test]
fn test_borderedbox_outside_image_is_noop() {
    let mut img = BasicRgbImageData::new(4, 4);
    borderedbox(&mut img, None, [1, 1, 1], [2, 2, 2], [10, 10, 14, 14], false);
    for y in 0..4 {
        for x in 0..4 {
            assert_eq!(img.get_pixel(x, y), [0, 0, 0]);
        }
    }
}

#[test]
fn test_borderedbox_wraparound_negative() {
    let mut img = BasicRgbImageData::new(8, 8);
    borderedbox(
        &mut img,
        Some([200, 0, 0]),
        [10, 10, 10],
        [20, 20, 20],
        [-2, -2, 2, 2],
        true,
    );
    // the corner at (-2, -2) wraps to (6, 6) and lies on the border
    assert_eq!(img.get_pixel(6, 6), [200, 0, 0]);
    assert_eq!(img.get_pixel(1, 1), [200, 0, 0]);
    // interior of the wrapped box
    let p = img.get_pixel(7, 7);
    assert!(p == [10, 10, 10] || p == [20, 20, 20]);
    // untouched pixel
    assert_eq!(img.get_pixel(4, 4), [0, 0, 0]);
}

#[test]
fn test_borderedbox_without_border_checkerboard() {
    let mut img = BasicRgbImageData::new(4, 4);
    borderedbox(&mut img, None, [11, 0, 0], [0, 22, 0], [0, 0, 4, 4], false);
    for y in 0..4u32 {
        for x in 0..4u32 {
            let expected = if x % 2 == y % 2 { [11, 0, 0] } else { [0, 22, 0] };
            assert_eq!(img.get_pixel(x, y), expected);
        }
    }
}
