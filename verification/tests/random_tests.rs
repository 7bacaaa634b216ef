use desktopwallpaper::basicrgbimage::BasicRgbImage;
use desktopwallpaper::basicrgbimage::BasicRgbImageData;
use desktopwallpaper::random::do_sample_rng;
use desktopwallpaper::random::FastDiceRoller;
use desktopwallpaper::random::SplitMix64;
use desktopwallpaper::random::ThreadRandom;
use desktopwallpaper::random::UniformRandom;
use desktopwallpaper::randomwp::randomboxes;
use desktopwallpaper::randomwp::randomwallpaper;

#[test]
fn test_do_sample_rng_in_range() {
    let mut src = SplitMix64::new(12345);
    for lo in [0u32, 3, 100, 4_000_000_000] {
        for span in [0u32, 1, 2, 6, 254] {
            let hi = lo + span;
            for _ in 0..50 {
                let v = do_sample_rng([lo, hi], &mut src);
                assert!(lo <= v && v <= hi);
            }
        }
    }
}

#[test]
fn test_do_sample_rng_degenerate() {
    let mut src = SplitMix64::new(7);
    assert_eq!(do_sample_rng([9, 9], &mut src), 9);
    assert_eq!(do_sample_rng([0, 0], &mut src), 0);
}

#[test]
fn test_do_sample_rng_covers_range() {
    let mut src = SplitMix64::new(99);
    let mut seen = [false; 4];
    for _ in 0..200 {
        let v = do_sample_rng([0, 3], &mut src);
        seen[v as usize] = true;
    }
    assert!(seen.iter().all(|s| *s));
}

#[test]
fn test_thread_random_in_range() {
    let mut rng = ThreadRandom::new();
    for _ in 0..100 {
        let v = rng.sample(3, 7);
        assert!((3..=7).contains(&v));
    }
    assert_eq!(rng.sample(5, 5), 5);
    let mut seen = [false; 5];
    for _ in 0..500 {
        seen[(rng.sample(3, 7) - 3) as usize] = true;
    }
    assert!(seen.iter().all(|s| *s));
}

#[test]
fn test_randomboxes_draws_something() {
    let mut rng = FastDiceRoller::new(SplitMix64::new(5));
    let mut img = BasicRgbImageData::new(32, 32);
    randomboxes(&mut img, &mut rng);
    let mut nonblack = 0;
    for y in 0..32 {
        for x in 0..32 {
            if img.get_pixel(x, y) != [0, 0, 0] {
                nonblack += 1;
            }
        }
    }
    assert!(nonblack > 0);
}

fn image_bytes(img: &BasicRgbImageData) -> Vec<u8> {
    let mut out = Vec::new();
    for y in 0..img.height() {
        for x in 0..img.width() {
            out.extend_from_slice(&img.get_pixel(x, y));
        }
    }
    out
}

#[test]
fn test_randomwallpaper_reproducible_with_seed() {
    for seed in [1u64, 42, 0xDEADBEEF] {
        let mut rng1 = FastDiceRoller::new(SplitMix64::new(seed));
        let wp1: BasicRgbImageData = randomwallpaper(&mut rng1);
        let mut rng2 = FastDiceRoller::new(SplitMix64::new(seed));
        let wp2: BasicRgbImageData = randomwallpaper(&mut rng2);
        assert_eq!(wp1.width(), wp2.width());
        assert_eq!(wp1.height(), wp2.height());
        assert_eq!(image_bytes(&wp1), image_bytes(&wp2));
    }
}

#[test]
fn test_randomwallpaper_dimensions() {
    for seed in 0..6u64 {
        let mut rng = FastDiceRoller::new(SplitMix64::new(seed));
        let wp: BasicRgbImageData = randomwallpaper(&mut rng);
        assert!((128..=256).contains(&wp.width()));
        assert!((128..=256).contains(&wp.height()));
        assert_eq!(wp.width() % 8, 0);
        assert_eq!(wp.height() % 8, 0);
    }
}

#[test]
fn test_randomwallpaper_is_websafe_or_vga() {
    let mut rng = FastDiceRoller::new(SplitMix64::new(11));
    let wp: BasicRgbImageData = randomwallpaper(&mut rng);
    for y in 0..wp.height() {
        for x in 0..wp.width() {
            let p = wp.get_pixel(x, y);
            let websafe = p.iter().all(|c| c % 51 == 0);
            let vga = (p[0] == 0xC0 && p[1] == 0xC0 && p[2] == 0xC0)
                || (p.iter().all(|c| *c == 0 || *c == 0x80));
            assert!(websafe || vga, "pixel {:?} at {},{}", p, x, y);
        }
    }
}
