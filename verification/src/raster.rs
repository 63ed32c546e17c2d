//! Pixel buffers: an immutable RGB image model and the conversion from a
//! captured RGBA byte buffer into it.

use vstd::prelude::*;

verus! {

/// One RGB pixel.
#[derive(Clone, Copy, Debug, PartialEq, Eq, Structural)]
pub struct Pixel {
    pub r: u8,
    pub g: u8,
    pub b: u8,
}

/// A row-major RGB image: pixel `(x, y)` sits at index `y * width + x`.
#[derive(Debug)]
pub struct Image {
    pub width: u32,
    pub height: u32,
    pub pixels: Vec<Pixel>,
}

impl Image {
    /// The buffer holds exactly one pixel per coordinate.
    pub open spec fn wf(&self) -> bool {
        self.pixels@.len() == self.width * self.height
    }

    /// The pixel stored at `(x, y)`, for `x < width` and `y < height`.
    pub open spec fn pixel_at(&self, x: int, y: int) -> Pixel {
        self.pixels@[y * self.width + x]
    }

    /// Builds an image from its dimensions and a row-major pixel buffer.
    pub fn new(width: u32, height: u32, pixels: Vec<Pixel>) -> (im: Image)
        requires
            pixels@.len() == width * height,
        ensures
            im.wf(),
            im.width == width,
            im.height == height,
            im.pixels@ == pixels@,
    {
        Image { width, height, pixels }
    }

    /// Reads the pixel at `(x, y)`.
    pub fn pixel(&self, x: u32, y: u32) -> (p: Pixel)
        requires
            self.wf(),
            x < self.width,
            y < self.height,
        ensures
            p == self.pixel_at(x as int, y as int),
    {
        let n: usize = self.pixels.len();
        proof {
            lemma_flat_index_in_range(self.width as int, self.height as int, x as int, y as int);
        }
        let idx: usize = (y as usize) * (self.width as usize) + (x as usize);
        self.pixels[idx]
    }
}

/// A row-major index stays below the pixel count.
proof fn lemma_flat_index_in_range(w: int, h: int, x: int, y: int)
    requires
        0 <= x < w,
        0 <= y < h,
    ensures
        0 <= y * w + x < w * h,
{
    assert(0 <= y * w + x < w * h) by (nonlinear_arith)
        requires
            0 <= x < w,
            0 <= y < h,
    ;
}

/// The pixel a captured RGBA buffer holds at `(x, y)`, alpha dropped.
pub open spec fn rgba_pixel_at(rgba: Seq<u8>, w: int, x: int, y: int) -> Pixel {
    Pixel {
        r: rgba[4 * (y * w + x)],
        g: rgba[4 * (y * w + x) + 1],
        b: rgba[4 * (y * w + x) + 2],
    }
}

/// Converts a row-major RGBA byte buffer into an RGB image by dropping
/// every alpha channel.
pub fn rgb_from_rgba(width: u32, height: u32, rgba: &Vec<u8>) -> (im: Image)
    requires
        rgba@.len() == 4 * (width * height),
    ensures
        im.wf(),
        im.width == width,
        im.height == height,
        forall|x: int, y: int|
            0 <= x < width && 0 <= y < height ==> im.pixel_at(x, y) == rgba_pixel_at(
                rgba@,
                width as int,
                x,
                y,
            ),
{
    let buf_len: usize = rgba.len();
    let mut pixels: Vec<Pixel> = Vec::new();
    let mut y: u32 = 0;
    while y < height
        invariant
            y <= height,
            rgba@.len() == 4 * (width * height),
            rgba@.len() <= usize::MAX,
            pixels@.len() == y * width,
            forall|px: int, py: int|
                0 <= px < width && 0 <= py < y ==> pixels@[py * width + px] == rgba_pixel_at(
                    rgba@,
                    width as int,
                    px,
                    py,
                ),
        decreases height - y,
    {
        let mut x: u32 = 0;
        while x < width
            invariant
                y < height,
                x <= width,
                rgba@.len() == 4 * (width * height),
                rgba@.len() <= usize::MAX,
                pixels@.len() == y * width + x,
                forall|px: int, py: int|
                    0 <= px < width && 0 <= py < y ==> pixels@[py * width + px] == rgba_pixel_at(
                        rgba@,
                        width as int,
                        px,
                        py,
                    ),
                forall|px: int|
                    0 <= px < x ==> pixels@[y * width + px] == rgba_pixel_at(
                        rgba@,
                        width as int,
                        px,
                        y as int,
                    ),
            decreases width - x,
        {
            proof {
                lemma_flat_index_in_range(width as int, height as int, x as int, y as int);
                assert forall|px: int, py: int| 0 <= px < width && 0 <= py < y implies 0 <= (
                #[trigger] (py * width + px)) < y * width by {
                    lemma_flat_index_in_range(width as int, y as int, px, py);
                    assert(width * y == y * width) by (nonlinear_arith);
                }
            }
            let idx: usize = (y as usize) * (width as usize) + (x as usize);
            let p = Pixel { r: rgba[4 * idx], g: rgba[4 * idx + 1], b: rgba[4 * idx + 2] };
            pixels.push(p);
            x = x + 1;
        }
        proof {
            assert((y + 1) * width == y * width + width) by (nonlinear_arith);
        }
        y = y + 1;
    }
    proof {
        assert(pixels@.len() == width * height) by (nonlinear_arith)
            requires
                pixels@.len() == (height as int) * (width as int),
        ;
    }
    Image { width, height, pixels }
}

} // verus!
