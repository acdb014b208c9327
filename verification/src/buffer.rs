//! The shared data model: a rectangular grid of RGBA pixels.
//!
//! A [`PixelBuffer`] is a `width x height` grid of 8-bit RGBA pixels stored
//! row-major.  Buffers are never mutated in place: every transform produces a
//! fresh buffer, so a snapshot handed to a long-running consumer stays valid.

use vstd::prelude::*;

verus! {

/// One pixel: red, green, blue and alpha, eight bits each.
#[derive(Clone, Copy, PartialEq, Eq, Structural, Debug)]
pub struct Rgba {
    pub r: u8,
    pub g: u8,
    pub b: u8,
    pub a: u8,
}

/// A `width x height` grid of RGBA pixels, row-major.
#[derive(Debug)]
pub struct PixelBuffer {
    pub width: u32,
    pub height: u32,
    pub pixels: Vec<Rgba>,
}

impl PixelBuffer {
    /// Structural invariant: exactly one pixel per grid cell.
    pub open spec fn wf(&self) -> bool {
        self.pixels@.len() == self.width * self.height
    }

    /// The empty buffer, the store's sentinel before a first image is loaded.
    pub fn empty() -> (r: PixelBuffer)
        ensures
            r.wf(),
            r.width == 0,
            r.height == 0,
            r.pixels@ == Seq::<Rgba>::empty(),
    {
        PixelBuffer { width: 0, height: 0, pixels: Vec::new() }
    }

    /// Builds a buffer from a row-major pixel vector; `None` when the vector
    /// does not hold exactly `width * height` pixels.
    pub fn from_pixels(width: u32, height: u32, pixels: Vec<Rgba>) -> (r: Option<PixelBuffer>)
        ensures
            match r {
                Some(b) => {
                    &&& b.wf()
                    &&& b.width == width
                    &&& b.height == height
                    &&& b.pixels@ == pixels@
                    &&& pixels@.len() == width * height
                },
                None => pixels@.len() != width * height,
            },
    {
        proof {
            assert((width as int) * (height as int) <= 0xffff_ffffu64 * 0xffff_ffffu64)
                by (nonlinear_arith)
                requires width <= 0xffff_ffffu64 && height <= 0xffff_ffffu64;
        }
        let expected: u64 = (width as u64) * (height as u64);
        if (pixels.len() as u64) == expected {
            Some(PixelBuffer { width, height, pixels })
        } else {
            None
        }
    }
}

impl Clone for PixelBuffer {
    /// A clone carries the same dimensions and the same pixels.
    fn clone(&self) -> (r: Self)
        ensures
            r.width == self.width,
            r.height == self.height,
            r.pixels@ == self.pixels@,
    {
        PixelBuffer {
            width: self.width,
            height: self.height,
            pixels: copy_pixels(&self.pixels),
        }
    }
}

/// Copies a pixel vector element by element.
fn copy_pixels(v: &Vec<Rgba>) -> (r: Vec<Rgba>)
    ensures
        r@ == v@,
{
    let mut r: Vec<Rgba> = Vec::new();
    let mut i: usize = 0;
    while i < v.len()
        invariant
            i <= v@.len(),
            r@ == v@.subrange(0, i as int),
        decreases v@.len() - i,
    {
        r.push(v[i]);
        i = i + 1;
    }
    assert(r@ == v@);
    r
}

} // verus!
