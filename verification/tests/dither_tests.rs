use desktopwallpaper::basicrgbimage::BasicRgbImage;
use desktopwallpaper::basicrgbimage::BasicRgbImageData;
use desktopwallpaper::dither::floyd_steinberg_dither;
use desktopwallpaper::dither::nearestrgb3;
use desktopwallpaper::dither::websafedither;
use desktopwallpaper::imageop::classiccolors;

fn fill_gradient(img: &mut BasicRgbImageData) {
    for y in 0..img.height() {
        for x in 0..img.width() {
            let r = ((x * 37 + y * 11) % 256) as u8;
            let g = ((x * 73 + y * 151) % 256) as u8;
            let b = ((x * 5 + y * 197) % 256) as u8;
            img.put_pixel(x, y, [r, g, b]);
        }
    }
}

#[test]
fn test_websafe_channels_are_levels() {
    let mut img = BasicRgbImageData::new(16, 16);
    fill_gradient(&mut img);
    websafedither(&mut img, false);
    for y in 0..16 {
        for x in 0..16 {
            let p = img.get_pixel(x, y);
            for c in p {
                assert!(c % 51 == 0, "channel {} at {},{}", c, x, y);
            }
        }
    }
}

#[test]
fn test_websafe_preserves_vga_colors() {
    let vga: [[u8; 3]; 8] = [
        [0xC0, 0xC0, 0xC0],
        [0x80, 0, 0],
        [0, 0x80, 0],
        [0x80, 0x80, 0],
        [0, 0, 0x80],
        [0x80, 0, 0x80],
        [0, 0x80, 0x80],
        [0x80, 0x80, 0x80],
    ];
    let mut img = BasicRgbImageData::new(8, 1);
    for (i, c) in vga.iter().enumerate() {
        img.put_pixel(i as u32, 0, *c);
    }
    websafedither(&mut img, true);
    for (i, c) in vga.iter().enumerate() {
        assert_eq!(img.get_pixel(i as u32, 0), *c);
    }
}

#[test]
fn test_websafe_quantizes_vga_when_not_preserving() {
    let mut img = BasicRgbImageData::new(1, 1);
    img.put_pixel(0, 0, [0xC0, 0xC0, 0xC0]);
    websafedither(&mut img, false);
    // threshold at (0, 0) is 0, and 192 has remainder 39, so it rounds up
    assert_eq!(img.get_pixel(0, 0), [204, 204, 204]);
}

#[test]
fn test_websafe_exact_values() {
    let mut img = BasicRgbImageData::new(2, 1);
    img.put_pixel(0, 0, [25, 99, 200]);
    img.put_pixel(1, 0, [25, 99, 200]);
    websafedither(&mut img, false);
    // position (0,0): threshold 0, every nonzero remainder rounds up
    assert_eq!(img.get_pixel(0, 0), [51, 102, 204]);
    // position (1,0): threshold 32; 25 scales to 31 and rounds down
    assert_eq!(img.get_pixel(1, 0), [0, 102, 204]);
}

#[test]
fn test_floyd_steinberg_output_in_palette() {
    let mut img = BasicRgbImageData::new(12, 9);
    fill_gradient(&mut img);
    let pal = classiccolors();
    floyd_steinberg_dither(&mut img, &pal);
    for y in 0..9 {
        for x in 0..12 {
            let p = img.get_pixel(x, y);
            assert!(pal.iter().any(|c| *c == p), "pixel {:?} at {},{}", p, x, y);
        }
    }
}

#[test]
fn test_floyd_steinberg_zero_area_is_noop() {
    let pal = classiccolors();
    let mut img = BasicRgbImageData::new(0, 5);
    floyd_steinberg_dither(&mut img, &pal);
    assert_eq!(img.width(), 0);
    assert_eq!(img.height(), 5);
    let mut img = BasicRgbImageData::new(5, 0);
    floyd_steinberg_dither(&mut img, &pal);
    assert_eq!(img.width(), 5);
    assert_eq!(img.height(), 0);
}

#[test]
fn test_floyd_steinberg_exact_single_pixel() {
    let mut img = BasicRgbImageData::new(1, 1);
    img.put_pixel(0, 0, [10, 20, 30]);
    let pal: Vec<[u8; 3]> = vec![[0, 0, 0], [255, 255, 255]];
    floyd_steinberg_dither(&mut img, &pal);
    assert_eq!(img.get_pixel(0, 0), [0, 0, 0]);
}

#[test]
fn test_floyd_steinberg_exact_diffusion() {
    let mut img = BasicRgbImageData::new(2, 1);
    img.put_pixel(0, 0, [200, 200, 200]);
    img.put_pixel(1, 0, [0, 0, 0]);
    let pal: Vec<[u8; 3]> = vec![[0, 0, 0], [255, 255, 255]];
    floyd_steinberg_dither(&mut img, &pal);
    // the first pixel snaps to white; its residual of -55 diffuses
    // 7/16 rightward, leaving the neighbor negative, hence black
    assert_eq!(img.get_pixel(0, 0), [255, 255, 255]);
    assert_eq!(img.get_pixel(1, 0), [0, 0, 0]);
}

#[test]
fn test_nearestrgb3_picks_nearest() {
    let pal: Vec<[u8; 3]> = vec![[0, 0, 0], [100, 100, 100], [255, 255, 255]];
    assert_eq!(nearestrgb3(&pal, 10, 10, 10), 0);
    assert_eq!(nearestrgb3(&pal, 90, 110, 100), 1);
    assert_eq!(nearestrgb3(&pal, 250, 250, 250), 2);
}

#[test]
fn test_nearestrgb3_first_index_wins_ties() {
    let pal: Vec<[u8; 3]> = vec![[0, 0, 0], [2, 0, 0], [0, 0, 0]];
    // (1,0,0) is equally near entries 0 and 1; the scan keeps the first
    assert_eq!(nearestrgb3(&pal, 1, 0, 0), 0);
    // an exact match short-circuits but still yields the first such entry
    assert_eq!(nearestrgb3(&pal, 0, 0, 0), 0);
}

#[test]
fn test_floyd_steinberg_zero_area_empty_palette() {
    // a zero-area image is a no-op whatever the palette, even an empty one
    let empty: Vec<[u8; 3]> = Vec::new();
    let mut img = BasicRgbImageData::new(0, 3);
    floyd_steinberg_dither(&mut img, &empty);
    assert_eq!(img.width(), 0);
    assert_eq!(img.height(), 3);
    let mut img = BasicRgbImageData::new(3, 0);
    floyd_steinberg_dither(&mut img, &empty);
    assert_eq!(img.width(), 3);
    assert_eq!(img.height(), 0);
}
