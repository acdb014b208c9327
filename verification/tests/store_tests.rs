//! The image store's replace and snapshot semantics.

use texturizer::{ImageStore, PixelBuffer, Rgba};

fn solid(w: u32, h: u32, v: u8) -> PixelBuffer {
    PixelBuffer {
        width: w,
        height: h,
        pixels: vec![Rgba { r: v, g: v, b: v, a: 255 }; (w * h) as usize],
    }
}

#[test]
fn a_new_store_holds_the_empty_sentinel() {
    let s = ImageStore::new();
    assert_eq!(s.current.width, 0);
    assert_eq!(s.current.height, 0);
    assert!(s.current.pixels.is_empty());
}

#[test]
fn replace_swaps_the_current_image() {
    let mut s = ImageStore::new();
    s.replace(solid(2, 3, 9));
    assert_eq!((s.current.width, s.current.height), (2, 3));
    assert_eq!(s.current.pixels, solid(2, 3, 9).pixels);
    s.replace(solid(1, 1, 4));
    assert_eq!((s.current.width, s.current.height), (1, 1));
}

#[test]
fn snapshot_copies_and_leaves_the_store_unchanged() {
    let mut s = ImageStore::new();
    s.replace(solid(2, 2, 7));
    let snap = s.snapshot();
    assert_eq!(snap.pixels, s.current.pixels);
    assert_eq!((snap.width, snap.height), (2, 2));
    // The snapshot is the caller's own copy: replacing the store later
    // leaves it untouched.
    s.replace(solid(1, 1, 1));
    assert_eq!(snap.pixels.len(), 4);
    assert_eq!(snap.pixels[0].r, 7);
}
