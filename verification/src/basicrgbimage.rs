//! The abstract raster-image contract and its in-memory implementation.
//!
//! Every algorithm in this crate is written against the `BasicRgbImage`
//! trait, so the same code runs over an in-memory buffer, a framebuffer
//! adapter, or a test fixture.  A pixel is a red-green-blue byte triple,
//! viewed in specifications as a three-element byte sequence.
use vstd::prelude::*;

verus! {

/// The channel triple of a blank (black) pixel.
pub open spec fn black_pixel() -> Seq<u8> {
    seq![0u8, 0u8, 0u8]
}

/// Capability contract for a mutable raster image of RGB byte pixels.
///
/// `img_pixel(x, y)` is the mathematical view of the stored pixel at a
/// coordinate: a sequence of the three channel bytes.  It is meaningful
/// only for `0 <= x < img_width()` and `0 <= y < img_height()`.
pub trait BasicRgbImage: Sized {
    /// The image width in pixels.
    spec fn img_width(&self) -> u32;

    /// The image height in pixels.
    spec fn img_height(&self) -> u32;

    /// The red, green and blue bytes of the pixel at `(x, y)`.
    spec fn img_pixel(&self, x: int, y: int) -> Seq<u8>;

    fn width(&self) -> (r: u32)
        ensures
            r == self.img_width(),
    ;

    fn height(&self) -> (r: u32)
        ensures
            r == self.img_height(),
    ;

    /// Creates a blank, zero-filled image of the given size.
    fn new(width: u32, height: u32) -> (r: Self)
        requires
            (width as int) * (height as int) * 3 <= usize::MAX as int,
        ensures
            r.img_width() == width,
            r.img_height() == height,
            forall|x: int, y: int|
                0 <= x < width && 0 <= y < height ==> r.img_pixel(x, y) == black_pixel(),
    ;

    fn get_pixel(&self, x: u32, y: u32) -> (r: [u8; 3])
        requires
            x < self.img_width(),
            y < self.img_height(),
        ensures
            r@ == self.img_pixel(x as int, y as int),
    ;

    fn put_pixel(&mut self, x: u32, y: u32, pixel: [u8; 3])
        requires
            x < old(self).img_width(),
            y < old(self).img_height(),
        ensures
            final(self).img_width() == old(self).img_width(),
            final(self).img_height() == old(self).img_height(),
            final(self).img_pixel(x as int, y as int) == pixel@,
            forall|i: int, j: int|
                0 <= i < old(self).img_width() && 0 <= j < old(self).img_height() && !(i == x
                    && j == y) ==> final(self).img_pixel(i, j) == old(self).img_pixel(i, j),
    ;
}

/// Row-major indexing of pixels is injective: two distinct in-bounds
/// coordinates never share a pixel offset.
proof fn lemma_rowmajor_distinct(w: int, x1: int, y1: int, x2: int, y2: int) by (nonlinear_arith)
    requires
        0 <= x1 < w,
        0 <= x2 < w,
        0 <= y1,
        0 <= y2,
        !(x1 == x2 && y1 == y2),
    ensures
        y1 * w + x1 != y2 * w + x2,
{
}

/// The pixel offset of an in-bounds coordinate lies within the store.
proof fn lemma_rowmajor_in_bounds(w: int, h: int, x: int, y: int) by (nonlinear_arith)
    requires
        0 <= x < w,
        0 <= y < h,
    ensures
        0 <= y * w + x,
        (y * w + x) * 3 + 3 <= w * h * 3,
{
}

/// An in-memory raster image: a contiguous row-major byte buffer of
/// width x height RGB pixels.
pub struct BasicRgbImageData {
    width: u32,
    height: u32,
    data: Vec<u8>,
}

impl BasicRgbImageData {
    #[verifier::type_invariant]
    spec fn store_sized(self) -> bool {
        self.data.len() == (self.width as int) * (self.height as int) * 3
    }
}

impl BasicRgbImage for BasicRgbImageData {
    closed spec fn img_width(&self) -> u32 {
        self.width
    }

    closed spec fn img_height(&self) -> u32 {
        self.height
    }

    closed spec fn img_pixel(&self, x: int, y: int) -> Seq<u8> {
        self.data@.subrange((y * self.width + x) * 3, (y * self.width + x) * 3 + 3)
    }

    fn width(&self) -> (r: u32) {
        self.width
    }

    fn height(&self) -> (r: u32) {
        self.height
    }

    fn new(width: u32, height: u32) -> (r: Self) {
        let n: usize = (width as usize) * (height as usize) * 3;
        let mut data: Vec<u8> = Vec::new();
        while data.len() < n
            invariant
                data.len() <= n,
                n == (width as int) * (height as int) * 3,
                forall|k: int| 0 <= k < data.len() ==> data@[k] == 0u8,
            decreases n - data.len(),
        {
            data.push(0u8);
        }
        let r = BasicRgbImageData { width, height, data };
        proof {
            assert forall|x: int, y: int| 0 <= x < width && 0 <= y < height implies r.img_pixel(
                x,
                y,
            ) == black_pixel() by {
                lemma_rowmajor_in_bounds(width as int, height as int, x, y);
                assert(r.img_pixel(x, y) =~= black_pixel());
            }
        }
        r
    }

    fn get_pixel(&self, x: u32, y: u32) -> (r: [u8; 3]) {
        proof {
            use_type_invariant(self);
            lemma_rowmajor_in_bounds(self.width as int, self.height as int, x as int, y as int);
        }
        let us: usize = ((y as usize) * (self.width as usize) + (x as usize)) * 3;
        let r = [self.data[us], self.data[us + 1], self.data[us + 2]];
        proof {
            assert(r@ =~= self.img_pixel(x as int, y as int));
        }
        r
    }

    fn put_pixel(&mut self, x: u32, y: u32, pixel: [u8; 3]) {
        proof {
            use_type_invariant(&*self);
            lemma_rowmajor_in_bounds(self.width as int, self.height as int, x as int, y as int);
        }
        let us: usize = ((y as usize) * (self.width as usize) + (x as usize)) * 3;
        self.data[us] = pixel[0];
        self.data[us + 1] = pixel[1];
        self.data[us + 2] = pixel[2];
        proof {
            assert(final(self).img_pixel(x as int, y as int) =~= pixel@);
            assert forall|i: int, j: int|
                0 <= i < old(self).img_width() && 0 <= j < old(self).img_height() && !(i == x && j
                    == y) implies final(self).img_pixel(i, j) == old(self).img_pixel(i, j) by {
                lemma_rowmajor_in_bounds(self.width as int, self.height as int, i, j);
                lemma_rowmajor_distinct(self.width as int, i, j, x as int, y as int);
                assert(final(self).img_pixel(i, j) =~= old(self).img_pixel(i, j));
            }
        }
    }
}

} // verus!
