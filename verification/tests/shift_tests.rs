//! The cyclic shift engine on concrete buffers.

use texturizer::{shift_x, shift_y, Displacement, PixelBuffer, Rgba, ShiftError};

fn px(v: u8) -> Rgba {
    Rgba { r: v, g: v, b: v, a: 255 }
}

/// A w x h buffer whose pixel at (x, y) is `vals[y * w + x]`.
fn buf(w: u32, h: u32, vals: &[u8]) -> PixelBuffer {
    assert_eq!(vals.len(), (w * h) as usize);
    let pixels: Vec<Rgba> = vals.iter().map(|v| px(*v)).collect();
    PixelBuffer { width: w, height: h, pixels }
}

fn values(b: &PixelBuffer) -> Vec<u8> {
    b.pixels.iter().map(|p| p.r).collect()
}

#[test]
fn shift_x_full_turn_is_identity() {
    // round(width * 1.0) == width, a whole turn: every pixel stays.
    let b = buf(4, 2, &[0, 1, 2, 3, 4, 5, 6, 7]);
    let (r, err) = shift_x(&b, Displacement { num: 1, den: 1 });
    assert!(err.is_none());
    assert_eq!(values(&r), values(&b));
    assert_eq!((r.width, r.height), (4, 2));
}

#[test]
fn shift_x_zero_is_identity() {
    let b = buf(3, 3, &[0, 1, 2, 3, 4, 5, 6, 7, 8]);
    let (r, err) = shift_x(&b, Displacement { num: 0, den: 5 });
    assert!(err.is_none());
    assert_eq!(values(&r), values(&b));
}

#[test]
fn shift_x_quarter() {
    // s = round(4 * 1/4) = 1: output column x holds input column (x + 1) % 4.
    let b = buf(4, 1, &[10, 20, 30, 40]);
    let (r, err) = shift_x(&b, Displacement { num: 1, den: 4 });
    assert!(err.is_none());
    assert_eq!(values(&r), vec![20, 30, 40, 10]);
}

#[test]
fn shift_x_negative_quarter() {
    // round(4 * -1/4) = -1, reduced mod 4 to 3.
    let b = buf(4, 1, &[10, 20, 30, 40]);
    let (r, err) = shift_x(&b, Displacement { num: -1, den: 4 });
    assert!(err.is_none());
    assert_eq!(values(&r), vec![40, 10, 20, 30]);
}

#[test]
fn shift_x_rounds_half_away_from_zero() {
    // 4 * 1/8 = 0.5 rounds to 1, not 0.
    let b = buf(4, 1, &[1, 2, 3, 4]);
    let (r, err) = shift_x(&b, Displacement { num: 1, den: 8 });
    assert!(err.is_none());
    assert_eq!(values(&r), vec![2, 3, 4, 1]);
}

#[test]
fn shift_x_out_of_range_is_signalled_no_op() {
    let b = buf(2, 2, &[1, 2, 3, 4]);
    let (r, err) = shift_x(&b, Displacement { num: 3, den: 2 });
    assert_eq!(err, Some(ShiftError::InvalidParameter));
    assert_eq!(values(&r), values(&b));
    assert_eq!((r.width, r.height), (2, 2));
    let (r2, err2) = shift_x(&b, Displacement { num: -3, den: 2 });
    assert_eq!(err2, Some(ShiftError::InvalidParameter));
    assert_eq!(values(&r2), values(&b));
}

#[test]
fn shift_y_out_of_range_is_signalled_no_op() {
    let b = buf(2, 2, &[1, 2, 3, 4]);
    let (r, err) = shift_y(&b, Displacement { num: 2, den: 1 });
    assert_eq!(err, Some(ShiftError::InvalidParameter));
    assert_eq!(values(&r), values(&b));
}

#[test]
fn shift_preserves_dimensions() {
    let b = buf(5, 3, &[0; 15]);
    let (rx, _) = shift_x(&b, Displacement { num: 2, den: 5 });
    assert_eq!((rx.width, rx.height), (5, 3));
    assert_eq!(rx.pixels.len(), 15);
    let (ry, _) = shift_y(&b, Displacement { num: -1, den: 3 });
    assert_eq!((ry.width, ry.height), (5, 3));
    assert_eq!(ry.pixels.len(), 15);
}

#[test]
fn shift_y_quarter_moves_rows_up_cyclically() {
    // A 4x4 buffer with row r filled with value r; s = round(4 * 1/4) = 1.
    // Output row y holds input row (y + 1) % 4: rows 1, 2, 3, 0.
    let b = buf(
        4,
        4,
        &[0, 0, 0, 0, 1, 1, 1, 1, 2, 2, 2, 2, 3, 3, 3, 3],
    );
    let (r, err) = shift_y(&b, Displacement { num: 1, den: 4 });
    assert!(err.is_none());
    assert_eq!(
        values(&r),
        vec![1, 1, 1, 1, 2, 2, 2, 2, 3, 3, 3, 3, 0, 0, 0, 0]
    );
}

#[test]
fn shift_round_trip_restores_exact_fractions() {
    // With width * dx a whole number, shifting by dx then by -dx is exact.
    let b = buf(4, 2, &[0, 1, 2, 3, 4, 5, 6, 7]);
    let (once, e1) = shift_x(&b, Displacement { num: 1, den: 4 });
    assert!(e1.is_none());
    let (back, e2) = shift_x(&once, Displacement { num: -1, den: 4 });
    assert!(e2.is_none());
    assert_eq!(values(&back), values(&b));
}

#[test]
fn shift_degenerate_buffer_is_identity() {
    let b = PixelBuffer { width: 0, height: 0, pixels: Vec::new() };
    let (rx, ex) = shift_x(&b, Displacement { num: 1, den: 2 });
    assert!(ex.is_none());
    assert_eq!((rx.width, rx.height), (0, 0));
    assert!(rx.pixels.is_empty());
    let (ry, ey) = shift_y(&b, Displacement { num: 1, den: 2 });
    assert!(ey.is_none());
    assert!(ry.pixels.is_empty());
}

#[test]
fn from_pixels_validates_length() {
    let ok = PixelBuffer::from_pixels(2, 2, vec![px(0); 4]);
    assert!(ok.is_some());
    let bad = PixelBuffer::from_pixels(2, 2, vec![px(0); 3]);
    assert!(bad.is_none());
}
