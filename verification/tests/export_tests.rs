//! The export pipeline against the real codec and the real disk.

use texturizer::export::{export_entries, list_dir, pixel_buffer_from_raw};
use texturizer::{
    export_directory, export_single, Config, ExportError, ExportOutcome, PixelBuffer, Rgba,
    SkipReason,
};

fn solid(w: u32, h: u32, v: u8) -> PixelBuffer {
    PixelBuffer {
        width: w,
        height: h,
        pixels: vec![Rgba { r: v, g: v, b: v, a: 255 }; (w * h) as usize],
    }
}

fn config(flags: [bool; 10]) -> Config {
    Config::from_flags(&flags.to_vec()).expect("ten flags")
}

#[test]
fn export_single_writes_both_axes_of_a_square() {
    // A 100x100 source with sizes {16} on both axes: exactly two files,
    // named for their axis and their computed 16x16 dimensions.
    let b = solid(100, 100, 200);
    let sel = config([true, false, false, false, false, false, true, true, true, false]);
    let outs = export_single(&b, &sel, "/tmp", "tile").expect("output dir exists");
    assert_eq!(
        outs,
        vec![
            ExportOutcome::Written { path: "/tmp/tile_w_x16_w16_h16.png".to_string() },
            ExportOutcome::Written { path: "/tmp/tile_h_x16_w16_h16.png".to_string() },
        ]
    );
    // The written files really are 16x16 resamples, not copies.
    let reread = image::ImageReader::open("/tmp/tile_w_x16_w16_h16.png")
        .expect("file exists")
        .decode()
        .expect("decodes");
    assert_eq!((reread.width(), reread.height()), (16, 16));
    let rgba = reread.into_rgba8();
    assert_eq!(rgba.get_pixel(0, 0).0, [200, 200, 200, 255]);
}

#[test]
fn export_single_rejects_a_missing_output_dir() {
    let b = solid(8, 8, 1);
    let sel = config([true, false, false, false, false, false, true, false, true, false]);
    let r = export_single(&b, &sel, "/tmp/no_such_dir_for_texturizer", "x");
    assert_eq!(r, Err(ExportError::InvalidOutputDir));
}

#[test]
fn export_single_skips_an_unencodable_format() {
    // An unknown format extension makes every write fail; each target is
    // skipped as an IO error and the batch still reports them all.
    let b = solid(64, 64, 3);
    let mut sel = config([true, true, false, false, false, false, true, false, true, false]);
    sel.format = "unknownext".to_string();
    let outs = export_single(&b, &sel, "/tmp", "bad").expect("output dir exists");
    assert_eq!(
        outs,
        vec![
            ExportOutcome::Skipped { reason: SkipReason::IOError },
            ExportOutcome::Skipped { reason: SkipReason::IOError },
        ]
    );
}

#[test]
fn export_single_of_degenerate_buffer_writes_nothing() {
    let b = PixelBuffer { width: 0, height: 0, pixels: Vec::new() };
    let sel = config([true, true, true, true, true, true, true, true, true, false]);
    let outs = export_single(&b, &sel, "/tmp", "none").expect("output dir exists");
    assert!(outs.is_empty());
}

#[test]
fn export_directory_of_nothing_is_empty_and_not_fatal() {
    // A directory that lists nothing: no outcomes, no error.
    let sel = config([true, false, false, false, false, false, true, true, true, true]);
    let outs = export_directory("/tmp/no_such_dir_for_texturizer", &sel, "/tmp", "batch")
        .expect("output dir exists");
    assert!(outs.is_empty());
}

#[test]
fn export_directory_rejects_a_missing_output_dir() {
    let sel = config([true, false, false, false, false, false, true, false, true, true]);
    let r = export_directory("/tmp", &sel, "/tmp/no_such_dir_for_texturizer", "b");
    assert_eq!(r, Err(ExportError::InvalidOutputDir));
}

#[test]
fn export_directory_skips_undecodable_entries_and_continues() {
    // The crate's own test sources: every entry is listed, none decodes,
    // and each is recorded as a decode skip rather than aborting the batch.
    let sel = config([true, false, false, false, false, false, true, false, true, true]);
    let outs = export_directory("tests", &sel, "/tmp", "src").expect("output dir exists");
    assert!(!outs.is_empty());
    for o in &outs {
        assert_eq!(*o, ExportOutcome::Skipped { reason: SkipReason::DecodeError });
    }
}

#[test]
fn export_directory_exports_what_decodes() {
    // Seed a decodable image, then export the directory that holds it: at
    // least that image decodes, plans one 16x16 target and gets written.
    let b = solid(32, 32, 50);
    let sel_single = config([true, false, false, false, false, false, true, false, true, false]);
    let seeded = export_single(&b, &sel_single, "/tmp", "seed").expect("output dir exists");
    assert_eq!(
        seeded,
        vec![ExportOutcome::Written { path: "/tmp/seed_w_x16_w16_h16.png".to_string() }]
    );
    let sel = config([true, false, false, false, false, false, true, false, true, true]);
    let outs = export_directory("/tmp", &sel, "/tmp", "batch").expect("output dir exists");
    let wrote_any = outs.iter().any(|o| matches!(o, ExportOutcome::Written { .. }));
    assert!(wrote_any);
    for o in &outs {
        if let ExportOutcome::Written { path } = o {
            assert!(path.starts_with("/tmp/"));
        }
    }
}

#[test]
fn export_entries_of_no_entries_is_empty() {
    let sel = config([true, false, false, false, false, false, true, false, true, true]);
    let outs = export_entries(&Vec::new(), &sel, "/tmp", "none");
    assert!(outs.is_empty());
}

#[test]
fn export_entries_blocks_follow_the_listing() {
    // One entry that cannot decode, then one that can: the first
    // contributes exactly its decode skip, the second its planned target.
    let b = solid(32, 32, 80);
    let sel_single = config([true, false, false, false, false, false, true, false, true, false]);
    let seeded = export_single(&b, &sel_single, "/tmp", "listed").expect("output dir exists");
    assert_eq!(
        seeded,
        vec![ExportOutcome::Written { path: "/tmp/listed_w_x16_w16_h16.png".to_string() }]
    );
    let entries = vec![
        "/tmp/no_such_file_for_texturizer.png".to_string(),
        "/tmp/listed_w_x16_w16_h16.png".to_string(),
    ];
    let sel = config([true, false, false, false, false, false, true, false, true, true]);
    let outs = export_entries(&entries, &sel, "/tmp", "batch");
    assert_eq!(
        outs,
        vec![
            ExportOutcome::Skipped { reason: SkipReason::DecodeError },
            ExportOutcome::Written {
                path: "/tmp/batch_listed_w_x16_w16_h16.png_w_x16_w16_h16.png".to_string(),
            },
        ]
    );
}

#[test]
fn list_dir_lists_the_given_directory() {
    let entries = list_dir("tests");
    assert!(entries.iter().any(|e| e.ends_with("export_tests.rs")));
    let nothing = list_dir("/tmp/no_such_dir_for_texturizer");
    assert!(nothing.is_empty());
}

#[test]
fn pixel_buffer_from_raw_validates_and_round_trips() {
    let bytes: Vec<u8> = vec![1, 2, 3, 4, 5, 6, 7, 8];
    let b = pixel_buffer_from_raw(2, 1, &bytes).expect("length matches");
    assert_eq!((b.width, b.height), (2, 1));
    assert_eq!(b.pixels[0], Rgba { r: 1, g: 2, b: 3, a: 4 });
    assert_eq!(b.pixels[1], Rgba { r: 5, g: 6, b: 7, a: 8 });
    assert!(pixel_buffer_from_raw(2, 2, &bytes).is_none());
}
