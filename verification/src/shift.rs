//! The cyclic shift engine.
//!
//! A shift moves pixel content by a signed fraction of the image's width or
//! height; content pushed past one edge reappears at the opposite edge, which
//! is how a seamless-tiling preview is produced.  The displacement is an
//! exact fraction, so the engine's arithmetic — rounding the fractional shift
//! to whole pixels and reducing it with a true mathematical modulo — is
//! integer-only and proved exact.

use vstd::arithmetic::div_mod::{
    lemma_add_mod_noop, lemma_fundamental_div_mod, lemma_fundamental_div_mod_converse_div,
    lemma_fundamental_div_mod_converse_mod, lemma_mod_twice, lemma_small_mod,
};
use vstd::prelude::*;

use crate::buffer::{PixelBuffer, Rgba};

verus! {

/// A signed fractional displacement `num / den` of the relevant dimension.
///
/// A drag of `p` pixels across a dimension of `d` pixels is the displacement
/// `p / d`; the engine accepts any exact fraction with a positive denominator.
#[derive(Clone, Copy, PartialEq, Eq, Structural, Debug)]
pub struct Displacement {
    pub num: i32,
    pub den: u32,
}

/// The non-fatal condition the engine signals on a displacement outside
/// `[-1, 1]`; the operation is then a no-op.
#[derive(Clone, Copy, PartialEq, Eq, Structural, Debug)]
pub enum ShiftError {
    InvalidParameter,
}

impl Displacement {
    /// Well-formed: the denominator is positive.
    pub open spec fn wf(&self) -> bool {
        self.den >= 1
    }

    /// Whether the fraction lies in the accepted range `[-1, 1]`.
    pub open spec fn in_range(&self) -> bool {
        -(self.den as int) <= self.num as int <= self.den as int
    }

    /// Executable range test.
    pub fn check_in_range(&self) -> (r: bool)
        ensures
            r == self.in_range(),
    {
        let num: i64 = self.num as i64;
        let den: i64 = self.den as i64;
        -den <= num && num <= den
    }
}

/// Round half away from zero of `v / den`, for `v >= 0`, `den >= 1`.
pub open spec fn round_mag(v: int, den: int) -> int
    recommends
        v >= 0,
        den >= 1,
{
    (2 * v + den) / (2 * den)
}

/// `round(dim * d)`: the displacement scaled to whole pixels, rounding half
/// away from zero.
pub open spec fn rounded_shift(dim: int, d: Displacement) -> int
    recommends
        dim >= 0,
        d.wf(),
{
    if d.num >= 0 {
        round_mag(dim * d.num, d.den as int)
    } else {
        -round_mag(dim * -(d.num as int), d.den as int)
    }
}

/// The rounded shift reduced into `[0, dim)` by the mathematical modulo,
/// which is never negative; 0 when the dimension is 0.
pub open spec fn shift_amount(dim: nat, d: Displacement) -> int
    recommends
        d.wf(),
{
    if dim == 0 {
        0
    } else {
        rounded_shift(dim as int, d) % (dim as int)
    }
}

/// The cyclic column shift of a row-major grid: the output pixel in column
/// `x` of row `y` is the input pixel in column `(x + s) % w` of row `y`.
/// Equivalently, the columns `[s, w)` form the left part of the output and
/// the columns `[0, s)` follow them.
pub open spec fn shifted_x(p: Seq<Rgba>, w: nat, h: nat, s: nat) -> Seq<Rgba>
    recommends
        p.len() == w * h,
        w > 0 ==> s < w,
{
    if w == 0 {
        p
    } else {
        Seq::new(p.len(), |i: int| p[(i / w as int) * w + ((i % (w as int) + s) % (w as int))])
    }
}

/// The cyclic row shift: the output pixel in column `x` of row `y` is the
/// input pixel in column `x` of row `(y + s) % h`.
pub open spec fn shifted_y(p: Seq<Rgba>, w: nat, h: nat, s: nat) -> Seq<Rgba>
    recommends
        p.len() == w * h,
        h > 0 ==> s < h,
{
    if w == 0 || h == 0 {
        p
    } else {
        Seq::new(p.len(), |i: int| p[((i / w as int + s) % (h as int)) * w + i % (w as int)])
    }
}

/// Computes the concrete pixel shift for one dimension: the displacement
/// scaled to pixels, rounded, and reduced into `[0, dim)`.
fn shift_pixels(dim: u32, d: Displacement) -> (s: u32)
    requires
        d.wf(),
        d.in_range(),
        dim >= 1,
    ensures
        s == shift_amount(dim as nat, d),
        s < dim,
{
    let mag: u32 = if d.num >= 0 {
        d.num as u32
    } else {
        (-(d.num as i64)) as u32
    };
    proof {
        assert((dim as int) * (mag as int) <= 0xffff_ffffi64 * 0xffff_ffffi64)
            by (nonlinear_arith)
            requires dim <= 0xffff_ffffi64 && mag <= 0xffff_ffffi64;
    }
    let v: u128 = (dim as u128) * (mag as u128);
    let den: u128 = d.den as u128;
    let m: u128 = (2 * v + den) / (2 * den);
    let r: u128 = m % (dim as u128);
    let r32: u32 = r as u32;
    if d.num >= 0 {
        r32
    } else {
        let s: u32 = if r32 == 0 {
            0
        } else {
            dim - r32
        };
        proof {
            let mi = m as int;
            let di = dim as int;
            let q = mi / di;
            let rr = mi % di;
            lemma_fundamental_div_mod(mi, di);
            if rr == 0 {
                assert(-mi == (-q) * di + 0) by (nonlinear_arith)
                    requires mi == q * di + rr && rr == 0;
                lemma_fundamental_div_mod_converse_mod(-mi, di, -q, 0);
            } else {
                assert(-mi == (-q - 1) * di + (di - rr)) by (nonlinear_arith)
                    requires mi == q * di + rr;
                lemma_fundamental_div_mod_converse_mod(-mi, di, -q - 1, di - rr);
            }
        }
        s
    }
}

/// Proves that a zero pixel shift moves nothing: every cell of the shifted
/// grid holds the cell of the input grid at the same index.
proof fn lemma_shifted_x_zero(p: Seq<Rgba>, w: nat, h: nat)
    requires
        p.len() == w * h,
    ensures
        shifted_x(p, w, h, 0) == p,
{
    if w > 0 {
        assert forall|i: int| 0 <= i < p.len() implies shifted_x(p, w, h, 0)[i] == p[i] by {
            let wi = w as int;
            lemma_fundamental_div_mod(i, wi);
            assert(0 <= i % wi < wi);
            assert((i % wi + 0) % wi == i % wi) by {
                lemma_fundamental_div_mod_converse_mod(i % wi, wi, 0, i % wi);
            }
            assert((i / wi) * wi + i % wi == i);
        }
        assert(shifted_x(p, w, h, 0) =~= p);
    }
}

/// The corresponding fact for a row shift.
proof fn lemma_shifted_y_zero(p: Seq<Rgba>, w: nat, h: nat)
    requires
        p.len() == w * h,
    ensures
        shifted_y(p, w, h, 0) == p,
{
    if w > 0 && h > 0 {
        assert forall|i: int| 0 <= i < p.len() implies shifted_y(p, w, h, 0)[i] == p[i] by {
            let wi = w as int;
            let hi = h as int;
            lemma_fundamental_div_mod(i, wi);
            assert(i / wi < hi) by (nonlinear_arith)
                requires i < wi * hi && wi >= 1 && i == wi * (i / wi) + i % wi && 0 <= i % wi < wi;
            assert((i / wi + 0) % hi == i / wi) by {
                lemma_fundamental_div_mod_converse_mod(i / wi, hi, 0, i / wi);
            }
            assert((i / wi) * wi + i % wi == i);
        }
        assert(shifted_y(p, w, h, 0) =~= p);
    }
}

/// A displacement whose rounded pixel shift is a whole multiple of the width
/// leaves the buffer exactly as it was.
pub proof fn lemma_shift_x_identity(b: PixelBuffer, dx: Displacement)
    requires
        b.wf(),
        dx.wf(),
        shift_amount(b.width as nat, dx) == 0,
    ensures
        shifted_x(b.pixels@, b.width as nat, b.height as nat, shift_amount(b.width as nat, dx) as nat)
            == b.pixels@,
{
    lemma_shifted_x_zero(b.pixels@, b.width as nat, b.height as nat);
}

/// The corresponding identity law for a row shift of the height.
pub proof fn lemma_shift_y_identity(b: PixelBuffer, dy: Displacement)
    requires
        b.wf(),
        dy.wf(),
        shift_amount(b.height as nat, dy) == 0,
    ensures
        shifted_y(b.pixels@, b.width as nat, b.height as nat, shift_amount(b.height as nat, dy) as nat)
            == b.pixels@,
{
    lemma_shifted_y_zero(b.pixels@, b.width as nat, b.height as nat);
}

/// Two column shifts whose pixel amounts cancel modulo the width — a shift
/// and its exact inverse — restore every pixel.
pub proof fn lemma_shift_x_inverse(p: Seq<Rgba>, w: nat, h: nat, s1: nat, s2: nat)
    requires
        p.len() == w * h,
        ((s1 + s2) as int) % (w as int) == 0 || w == 0,
    ensures
        shifted_x(shifted_x(p, w, h, s1), w, h, s2) == p,
{
    if w > 0 {
        let wi = w as int;
        let q = shifted_x(p, w, h, s1);
        let r = shifted_x(q, w, h, s2);
        assert(q.len() == p.len());
        assert forall|i: int| 0 <= i < p.len() implies r[i] == p[i] by {
            lemma_fundamental_div_mod(i, wi);
            let row = i / wi;
            let col = i % wi;
            assert(0 <= col < wi);
            let col2 = (col + s2) % wi;
            assert(0 <= col2 < wi);
            let j = row * wi + col2;
            assert(r[i] == q[j]);
            assert(0 <= row * wi + col2 < p.len()) by (nonlinear_arith)
                requires
                    0 <= row,
                    0 <= col2 < wi,
                    p.len() == wi * h,
                    i == wi * row + col,
                    0 <= i < p.len(),
                    0 <= col < wi;
            lemma_fundamental_div_mod_converse_div(j, wi, row, col2);
            lemma_fundamental_div_mod_converse_mod(j, wi, row, col2);
            assert(q[j] == p[row * wi + ((col2 + s1) % wi)]);
            assert((col2 + s1) % wi == col) by {
                lemma_mod_twice(col + s2, wi);
                lemma_mod_twice(s1 as int, wi);
                lemma_mod_twice(col as int, wi);
                lemma_small_mod(col as nat, w);
                lemma_small_mod(col2 as nat, w);
                lemma_add_mod_noop(col + s2, s1 as int, wi);
                lemma_add_mod_noop(col2, s1 as int, wi);
                lemma_add_mod_noop(col as int, (s1 + s2) as int, wi);
                assert((col2 % wi + (s1 as int) % wi) % wi == (col + s2 + s1) % wi);
                assert((col % wi + ((s1 + s2) as int) % wi) % wi == (col + s1 + s2) % wi);
            }
            assert(p[row * wi + col] == p[i]);
        }
        assert(r =~= p);
    }
}

/// The corresponding inverse law for row shifts of the height.
pub proof fn lemma_shift_y_inverse(p: Seq<Rgba>, w: nat, h: nat, s1: nat, s2: nat)
    requires
        p.len() == w * h,
        ((s1 + s2) as int) % (h as int) == 0 || h == 0,
    ensures
        shifted_y(shifted_y(p, w, h, s1), w, h, s2) == p,
{
    if w > 0 && h > 0 {
        let wi = w as int;
        let hi = h as int;
        let q = shifted_y(p, w, h, s1);
        let r = shifted_y(q, w, h, s2);
        assert(q.len() == p.len());
        assert forall|i: int| 0 <= i < p.len() implies r[i] == p[i] by {
            lemma_fundamental_div_mod(i, wi);
            let row = i / wi;
            let col = i % wi;
            assert(0 <= col < wi);
            assert(0 <= row < hi) by (nonlinear_arith)
                requires
                    p.len() == wi * hi,
                    i == wi * row + col,
                    0 <= i < p.len(),
                    0 <= col < wi,
                    wi >= 1;
            let row2 = (row + s2) % hi;
            assert(0 <= row2 < hi);
            let j = row2 * wi + col;
            assert(r[i] == q[j]);
            assert(0 <= row2 * wi + col < p.len()) by (nonlinear_arith)
                requires
                    0 <= row2 < hi,
                    0 <= col < wi,
                    p.len() == wi * hi;
            lemma_fundamental_div_mod_converse_div(j, wi, row2, col);
            lemma_fundamental_div_mod_converse_mod(j, wi, row2, col);
            assert(q[j] == p[((row2 + s1) % hi) * wi + col]);
            assert((row2 + s1) % hi == row) by {
                lemma_mod_twice(row + s2, hi);
                lemma_mod_twice(s1 as int, hi);
                lemma_mod_twice(row as int, hi);
                lemma_small_mod(row as nat, h);
                lemma_small_mod(row2 as nat, h);
                lemma_add_mod_noop(row + s2, s1 as int, hi);
                lemma_add_mod_noop(row2, s1 as int, hi);
                lemma_add_mod_noop(row as int, (s1 + s2) as int, hi);
                assert((row2 % hi + (s1 as int) % hi) % hi == (row + s2 + s1) % hi);
                assert((row % hi + ((s1 + s2) as int) % hi) % hi == (row + s1 + s2) % hi);
            }
            assert(p[row * wi + col] == p[i]);
        }
        assert(r =~= p);
    }
}

/// Cyclically shifts the buffer's columns by the fraction `dx` of its width.
///
/// A displacement outside `[-1, 1]` is refused: the input comes back
/// unchanged together with the `InvalidParameter` signal.  Otherwise the
/// result holds the same dimensions and the cyclically moved pixels.
pub fn shift_x(b: &PixelBuffer, dx: Displacement) -> (r: (PixelBuffer, Option<ShiftError>))
    requires
        b.wf(),
        dx.wf(),
    ensures
        r.0.wf(),
        r.0.width == b.width,
        r.0.height == b.height,
        r.1 is Some <==> !dx.in_range(),
        !dx.in_range() ==> r.0.pixels@ == b.pixels@ && r.1 == Some(ShiftError::InvalidParameter),
        dx.in_range() ==> r.0.pixels@ == shifted_x(
            b.pixels@,
            b.width as nat,
            b.height as nat,
            shift_amount(b.width as nat, dx) as nat,
        ),
{
    if !dx.check_in_range() {
        return (b.clone(), Some(ShiftError::InvalidParameter));
    }
    if b.width == 0 {
        return (b.clone(), None);
    }
    let w = b.width;
    let h = b.height;
    let s = shift_pixels(w, dx);
    let n = b.pixels.len();
    let ghost p = b.pixels@;
    let ghost target = shifted_x(p, w as nat, h as nat, s as nat);
    let mut pixels: Vec<Rgba> = Vec::new();
    let mut y: u32 = 0;
    while y < h
        invariant
            b.wf(),
            b.width == w,
            b.height == h,
            p == b.pixels@,
            n == p.len(),
            w >= 1,
            s < w,
            y <= h,
            target == shifted_x(p, w as nat, h as nat, s as nat),
            target.len() == p.len(),
            pixels@.len() == y * w,
            forall|i: int| 0 <= i < pixels@.len() ==> pixels@[i] == target[i],
        decreases h - y,
    {
        let mut x: u32 = 0;
        proof {
            assert((y + 1) * w == y * w + w) by (nonlinear_arith);
            assert((y + 1) * w <= h * w) by (nonlinear_arith)
                requires y + 1 <= h && w >= 0;
        }
        while x < w
            invariant
                b.wf(),
                b.width == w,
                b.height == h,
                p == b.pixels@,
                n == p.len(),
                w >= 1,
                s < w,
                y < h,
                x <= w,
                target == shifted_x(p, w as nat, h as nat, s as nat),
                target.len() == p.len(),
                (y + 1) * w == y * w + w,
                (y + 1) * w <= h * w,
                pixels@.len() == y * w + x,
                forall|i: int| 0 <= i < pixels@.len() ==> pixels@[i] == target[i],
            decreases w - x,
        {
            let src_col: u32 = (((x as u64) + (s as u64)) % (w as u64)) as u32;
            proof {
                let wi = w as int;
                let ii = y * wi + x;
                lemma_fundamental_div_mod_converse_mod(ii, wi, y as int, x as int);
                lemma_fundamental_div_mod_converse_div(ii, wi, y as int, x as int);
                assert((y as int) * wi + src_col < (h as int) * wi) by (nonlinear_arith)
                    requires y < h && src_col < wi && wi >= 1;
                assert((h as int) * wi == wi * (h as int)) by (nonlinear_arith);
                assert(target[ii] == p[(y as int) * wi + ((x + s) % wi)]);
            }
            let idx: usize = (y as usize) * (w as usize) + (src_col as usize);
            pixels.push(b.pixels[idx]);
            x = x + 1;
        }
        y = y + 1;
    }
    proof {
        assert(pixels@.len() == (h as int) * (w as int));
        assert((h as int) * (w as int) == (w as int) * (h as int)) by (nonlinear_arith);
        assert(pixels@ =~= target);
    }
    (PixelBuffer { width: w, height: h, pixels }, None)
}

/// Cyclically shifts the buffer's rows by the fraction `dy` of its height.
///
/// The same contract as [`shift_x`], transposed over rows.
pub fn shift_y(b: &PixelBuffer, dy: Displacement) -> (r: (PixelBuffer, Option<ShiftError>))
    requires
        b.wf(),
        dy.wf(),
    ensures
        r.0.wf(),
        r.0.width == b.width,
        r.0.height == b.height,
        r.1 is Some <==> !dy.in_range(),
        !dy.in_range() ==> r.0.pixels@ == b.pixels@ && r.1 == Some(ShiftError::InvalidParameter),
        dy.in_range() ==> r.0.pixels@ == shifted_y(
            b.pixels@,
            b.width as nat,
            b.height as nat,
            shift_amount(b.height as nat, dy) as nat,
        ),
{
    if !dy.check_in_range() {
        return (b.clone(), Some(ShiftError::InvalidParameter));
    }
    if b.height == 0 || b.width == 0 {
        return (b.clone(), None);
    }
    let w = b.width;
    let h = b.height;
    let s = shift_pixels(h, dy);
    let n = b.pixels.len();
    let ghost p = b.pixels@;
    let ghost target = shifted_y(p, w as nat, h as nat, s as nat);
    let mut pixels: Vec<Rgba> = Vec::new();
    let mut y: u32 = 0;
    while y < h
        invariant
            b.wf(),
            b.width == w,
            b.height == h,
            p == b.pixels@,
            n == p.len(),
            w >= 1,
            h >= 1,
            s < h,
            y <= h,
            target == shifted_y(p, w as nat, h as nat, s as nat),
            target.len() == p.len(),
            pixels@.len() == y * w,
            forall|i: int| 0 <= i < pixels@.len() ==> pixels@[i] == target[i],
        decreases h - y,
    {
        let mut x: u32 = 0;
        let src_row: u32 = (((y as u64) + (s as u64)) % (h as u64)) as u32;
        proof {
            assert((y + 1) * w == y * w + w) by (nonlinear_arith);
            assert((y + 1) * w <= h * w) by (nonlinear_arith)
                requires y + 1 <= h && w >= 0;
        }
        while x < w
            invariant
                b.wf(),
                b.width == w,
                b.height == h,
                p == b.pixels@,
                n == p.len(),
                w >= 1,
                h >= 1,
                s < h,
                y < h,
                x <= w,
                src_row == ((y + s) % (h as int)),
                target == shifted_y(p, w as nat, h as nat, s as nat),
                target.len() == p.len(),
                (y + 1) * w == y * w + w,
                (y + 1) * w <= h * w,
                pixels@.len() == y * w + x,
                forall|i: int| 0 <= i < pixels@.len() ==> pixels@[i] == target[i],
            decreases w - x,
        {
            proof {
                let wi = w as int;
                let ii = y * wi + x;
                lemma_fundamental_div_mod_converse_mod(ii, wi, y as int, x as int);
                lemma_fundamental_div_mod_converse_div(ii, wi, y as int, x as int);
                assert((src_row as int) * wi + x < (h as int) * wi) by (nonlinear_arith)
                    requires src_row < h && x < wi && wi >= 1;
                assert((h as int) * wi == wi * (h as int)) by (nonlinear_arith);
                assert(target[ii] == p[(src_row as int) * wi + x]);
            }
            let idx: usize = (src_row as usize) * (w as usize) + (x as usize);
            pixels.push(b.pixels[idx]);
            x = x + 1;
        }
        y = y + 1;
    }
    proof {
        assert(pixels@.len() == (h as int) * (w as int));
        assert((h as int) * (w as int) == (w as int) * (h as int)) by (nonlinear_arith);
        assert(pixels@ =~= target);
    }
    (PixelBuffer { width: w, height: h, pixels }, None)
}

} // verus!
