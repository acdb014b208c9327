//! The export pipeline.
//!
//! An export takes one decoded buffer — or every image a directory lists —
//! plans the resize targets, resamples each, and writes one file per
//! target.  Failures are isolated per item: an entry that does not decode,
//! or a target whose file cannot be written, is recorded as skipped and the
//! batch continues.  Only a missing output directory is fatal, checked once
//! before any work.
//!
//! Decoding, resampling, writing and directory listing are the `image` and
//! `glob` crates' work, called through the trusted wrappers at the top of
//! this module; everything around them is verified.

use vstd::arithmetic::div_mod::{
    lemma_fundamental_div_mod, lemma_fundamental_div_mod_converse_div,
    lemma_fundamental_div_mod_converse_mod,
};
use vstd::prelude::*;
use vstd::string::StringExecFns;

use crate::buffer::{PixelBuffer, Rgba};
use crate::naming::{build_file_name, file_name_spec, join_path, joined_path};
use crate::pathing::{file_name_of, glob_string_from_path, maybe_added};
use crate::planner::{lemma_plan_targets, plan, plan_spec, ResizeTarget};
use crate::selection::Config;

verus! {

/// The per-item record of a batch export.
#[derive(PartialEq, Eq, Debug)]
pub enum ExportOutcome {
    Written { path: String },
    Skipped { reason: SkipReason },
}

/// Why an item was skipped; the batch went on regardless.
#[derive(Clone, Copy, PartialEq, Eq, Structural, Debug)]
pub enum SkipReason {
    DecodeError,
    IOError,
}

/// The one fatal error of an export call, found before any work begins.
#[derive(Clone, Copy, PartialEq, Eq, Structural, Debug)]
pub enum ExportError {
    InvalidOutputDir,
}

/// Relies on `std::path::Path::is_dir`: whether the path names a directory
/// on disk.  The answer depends on the disk, so nothing is promised of it.
#[verifier::external_body]
fn path_is_dir(path: &str) -> bool {
    std::path::Path::new(path).is_dir()
}

/// Relies on `std::path::Path::is_file`: whether the path names a regular
/// file on disk.  The answer depends on the disk, so nothing is promised.
#[verifier::external_body]
fn path_is_file(path: &str) -> bool {
    std::path::Path::new(path).is_file()
}

/// Relies on `std::path::Path::exists`: whether the path names anything on
/// disk.  The answer depends on the disk, so nothing is promised.
#[verifier::external_body]
fn path_exists(path: &str) -> bool {
    std::path::Path::new(path).exists()
}

/// Relies on `glob::glob`: the paths matching the pattern, each rendered
/// with `to_string_lossy`; an unreadable entry or an invalid pattern yields
/// nothing.  What matches depends on the disk, so nothing is promised.
#[verifier::external_body]
fn glob_paths(pattern: &str) -> Vec<String> {
    match glob::glob(pattern) {
        Ok(paths) => paths
            .filter_map(|entry| entry.ok().map(|p| p.to_string_lossy().to_string()))
            .collect(),
        Err(_) => Vec::new(),
    }
}

/// Relies on `image::ImageReader`: opens the file, decodes it, and converts
/// the result to 8-bit RGBA; `None` on any open or decode failure.  The raw
/// buffer of a `width x height` RGBA image holds exactly `4 * width *
/// height` bytes (`ImageBuffer::into_raw`).
#[verifier::external_body]
fn decode_image_file(path: &str) -> (r: Option<(u32, u32, Vec<u8>)>)
    ensures
        match r {
            Some(t) => t.2@.len() == 4 * (t.0 as int) * (t.1 as int),
            None => true,
        },
{
    let reader = match image::ImageReader::open(path) {
        Ok(reader) => reader,
        Err(_) => return None,
    };
    let decoded = match reader.decode() {
        Ok(decoded) => decoded,
        Err(_) => return None,
    };
    let rgba = decoded.into_rgba8();
    let (w, h) = (rgba.width(), rgba.height());
    Some((w, h, rgba.into_raw()))
}

/// What nearest-neighbor resampling by the `image` crate returns for a raw
/// RGBA buffer: a function of the buffer and the four dimensions alone.
pub uninterp spec fn nearest_resized(pixels: Seq<u8>, w: int, h: int, tw: int, th: int) -> Seq<u8>;

/// Relies on `image::imageops::resize` with `FilterType::Nearest`:
/// resamples the `w x h` RGBA buffer to exactly `tw x th`.  The output is
/// again 4 bytes per pixel (`ImageBuffer::into_raw`).  The resampler's
/// vertical pass allocates a `w x th` intermediate and panics when its
/// element count overflows `usize`, so that product is bounded here too.
#[verifier::external_body]
fn resize_nearest(bytes: &Vec<u8>, w: u32, h: u32, tw: u32, th: u32) -> (r: Vec<u8>)
    requires
        bytes@.len() == 4 * w * h,
        w >= 1,
        h >= 1,
        tw >= 1,
        th >= 1,
        4 * tw * th <= usize::MAX,
        4 * w * th <= usize::MAX,
    ensures
        r@.len() == 4 * (tw as int) * (th as int),
        r@ == nearest_resized(bytes@, w as int, h as int, tw as int, th as int),
{
    let img: image::RgbaImage =
        image::ImageBuffer::from_raw(w, h, bytes.clone()).expect("buffer length matches");
    let out = image::imageops::resize(&img, tw, th, image::imageops::FilterType::Nearest);
    out.into_raw()
}

/// Relies on `image::save_buffer`: encodes the `w x h` RGBA buffer in the
/// format the path's extension names and writes it to that path; whether
/// that succeeds depends on the disk, so only success or failure comes
/// back.
#[verifier::external_body]
fn save_image_file(path: &str, w: u32, h: u32, bytes: &Vec<u8>) -> bool
    requires
        bytes@.len() == 4 * w * h,
{
    image::save_buffer(
        std::path::Path::new(path),
        bytes.as_slice(),
        w,
        h,
        image::ExtendedColorType::Rgba8,
    )
    .is_ok()
}

/// The byte at channel `k` of a pixel.
pub open spec fn byte_of(px: Rgba, k: int) -> u8
    recommends
        0 <= k <= 3,
{
    if k == 0 {
        px.r
    } else if k == 1 {
        px.g
    } else if k == 2 {
        px.b
    } else {
        px.a
    }
}

/// The raw byte form of a pixel sequence: red, green, blue, alpha, four
/// bytes per pixel in order.
pub open spec fn raw_of(p: Seq<Rgba>) -> Seq<u8> {
    Seq::new(4 * p.len(), |i: int| byte_of(p[i / 4], i % 4))
}

/// Flattens a buffer to its raw byte form.
pub fn buffer_to_raw(b: &PixelBuffer) -> (r: Vec<u8>)
    requires
        b.wf(),
        4 * b.pixels@.len() <= usize::MAX,
    ensures
        r@ == raw_of(b.pixels@),
        r@.len() == 4 * (b.width as int) * (b.height as int),
{
    let n = b.pixels.len();
    let ghost target = raw_of(b.pixels@);
    let mut r: Vec<u8> = Vec::new();
    let mut i: usize = 0;
    while i < n
        invariant
            b.wf(),
            n == b.pixels@.len(),
            4 * n <= usize::MAX,
            target == raw_of(b.pixels@),
            target.len() == 4 * n,
            i <= n,
            r@.len() == 4 * i,
            forall|j: int| 0 <= j < r@.len() ==> r@[j] == target[j],
        decreases n - i,
    {
        let px = b.pixels[i];
        proof {
            let ii = i as int;
            assert forall|k: int| 0 <= k <= 3 implies target[4 * ii + k] == byte_of(
                b.pixels@[ii],
                k,
            ) by {
                lemma_fundamental_div_mod_converse_div(4 * ii + k, 4, ii, k);
                lemma_fundamental_div_mod_converse_mod(4 * ii + k, 4, ii, k);
            }
        }
        r.push(px.r);
        r.push(px.g);
        r.push(px.b);
        r.push(px.a);
        i = i + 1;
    }
    proof {
        assert(r@ =~= target);
        assert(4 * (b.width as int) * (b.height as int) == 4 * ((b.width as int) * (
        b.height as int))) by (nonlinear_arith);
    }
    r
}

/// Rebuilds a pixel buffer from its raw byte form; `None` when the byte
/// count does not match the dimensions.
pub fn pixel_buffer_from_raw(width: u32, height: u32, bytes: &Vec<u8>) -> (r: Option<PixelBuffer>)
    ensures
        match r {
            Some(b) => {
                &&& b.wf()
                &&& b.width == width
                &&& b.height == height
                &&& raw_of(b.pixels@) == bytes@
            },
            None => bytes@.len() != 4 * (width as int) * (height as int),
        },
{
    proof {
        assert((width as int) * (height as int) <= 0xffff_ffffi64 * 0xffff_ffffi64)
            by (nonlinear_arith)
            requires width <= 0xffff_ffffi64 && height <= 0xffff_ffffi64;
    }
    let area: u64 = (width as u64) * (height as u64);
    let expected: u128 = 4u128 * (area as u128);
    if (bytes.len() as u128) != expected {
        proof {
            assert(bytes@.len() != 4 * (width as int) * (height as int)) by (nonlinear_arith)
                requires
                    bytes@.len() != 4 * ((width as int) * (height as int));
        }
        return None;
    }
    let ghost n = (width as int) * (height as int);
    proof {
        assert(4 * n == bytes@.len());
    }
    let mut pixels: Vec<Rgba> = Vec::new();
    let mut i: usize = 0;
    while 4 * i < bytes.len()
        invariant
            bytes@.len() == 4 * n,
            4 * n <= usize::MAX,
            0 <= n,
            i <= n,
            pixels@.len() == i,
            forall|k: int|
                0 <= k < pixels@.len() ==> #[trigger] pixels@[k] == (Rgba {
                    r: bytes@[4 * k],
                    g: bytes@[4 * k + 1],
                    b: bytes@[4 * k + 2],
                    a: bytes@[4 * k + 3],
                }),
        decreases n - i,
    {
        let base: usize = 4 * i;
        let px = Rgba {
            r: bytes[base],
            g: bytes[base + 1],
            b: bytes[base + 2],
            a: bytes[base + 3],
        };
        pixels.push(px);
        i = i + 1;
    }
    let b = PixelBuffer { width, height, pixels };
    proof {
        assert(b.pixels@.len() == n);
        assert(b.wf());
        assert forall|j: int| 0 <= j < 4 * n implies raw_of(b.pixels@)[j] == bytes@[j] by {
            lemma_fundamental_div_mod(j, 4);
            let k = j / 4;
            let c = j % 4;
            assert(b.pixels@[k] == (Rgba {
                r: bytes@[4 * k],
                g: bytes@[4 * k + 1],
                b: bytes@[4 * k + 2],
                a: bytes@[4 * k + 3],
            }));
        }
        assert(raw_of(b.pixels@) =~= bytes@);
    }
    Some(b)
}

/// What one outcome of a planned target may be: the target's file written
/// at exactly its planned path, or skipped because the write failed.
pub open spec fn outcome_for(
    o: ExportOutcome,
    dir: Seq<char>,
    base: Seq<char>,
    fmt: Seq<char>,
    t: ResizeTarget,
) -> bool {
    match o {
        ExportOutcome::Written { path } => path@ == joined_path(
            dir,
            file_name_spec(base, t, fmt),
        ),
        ExportOutcome::Skipped { reason } => reason == SkipReason::IOError,
    }
}

/// An outcome never writes outside the output directory: a written path
/// starts with the directory, separator included.
pub open spec fn written_under(o: ExportOutcome, dir: Seq<char>) -> bool {
    match o {
        ExportOutcome::Written { path } => {
            let d = maybe_added(dir, '/');
            path@.len() >= d.len() && path@.take(d.len() as int) == d
        },
        ExportOutcome::Skipped { .. } => true,
    }
}

/// The base name one listed entry exports under: the batch's base name, a
/// separator, the entry's own file name — so distinct entries never share
/// their targets' names.
pub open spec fn entry_base_of(base: Seq<char>, entry: Seq<char>) -> Seq<char> {
    base + "_"@ + file_name_of(entry)
}

/// What one listed entry contributes to a batch: a single decode skip, or
/// — for the dimensions the entry decoded to — one outcome per planned
/// target, each as [`outcome_for`] describes, under the entry's base name.
pub open spec fn entry_block_ok(
    block: Seq<ExportOutcome>,
    entry: Seq<char>,
    sel: Config,
    dir: Seq<char>,
    base: Seq<char>,
) -> bool {
    ||| block =~= seq![ExportOutcome::Skipped { reason: SkipReason::DecodeError }]
    ||| exists|w: u32, h: u32|
        #![auto]
        {
            &&& block.len() == plan_spec(w, h, sel).len()
            &&& forall|k: int|
                0 <= k < block.len() ==> outcome_for(
                    #[trigger] block[k],
                    dir,
                    entry_base_of(base, entry),
                    sel.format@,
                    plan_spec(w, h, sel)[k],
                )
        }
}

/// A batch's outcomes decompose into one block per listed entry, in
/// listing order: no entries, no outcomes.
pub open spec fn batch_outcomes_ok(
    outs: Seq<ExportOutcome>,
    entries: Seq<String>,
    sel: Config,
    dir: Seq<char>,
    base: Seq<char>,
) -> bool {
    exists|blocks: Seq<Seq<ExportOutcome>>|
        #![auto]
        {
            &&& blocks.len() == entries.len()
            &&& outs == blocks.flatten()
            &&& forall|i: int|
                0 <= i < blocks.len() ==> entry_block_ok(
                    #[trigger] blocks[i],
                    entries[i]@,
                    sel,
                    dir,
                    base,
                )
        }
}

/// The outcomes are some listing's blocks: what was listed is the disk's,
/// but entry by entry the outcomes have the decomposed form that
/// [`batch_outcomes_ok`] states.
pub open spec fn outcomes_are_some_batch(
    outs: Seq<ExportOutcome>,
    sel: Config,
    dir: Seq<char>,
    base: Seq<char>,
) -> bool {
    exists|entries: Seq<String>| batch_outcomes_ok(outs, entries, sel, dir, base)
}

/// A planned outcome stays under the output directory.
proof fn lemma_outcome_under(
    o: ExportOutcome,
    dir: Seq<char>,
    base: Seq<char>,
    fmt: Seq<char>,
    t: ResizeTarget,
)
    requires
        outcome_for(o, dir, base, fmt, t),
    ensures
        written_under(o, dir),
{
    if o is Written {
        let d = maybe_added(dir, '/');
        let name = file_name_spec(base, t, fmt);
        assert((d + name).take(d.len() as int) =~= d);
    }
}

/// Exports one decoded image: appends one outcome per planned target, in
/// plan order, each the target's file written at its planned path or a
/// skip on write failure.
fn export_one(
    raw: &Vec<u8>,
    w: u32,
    h: u32,
    sel: &Config,
    output_dir: &str,
    base_name: &str,
    out: &mut Vec<ExportOutcome>,
)
    requires
        raw@.len() == 4 * w * h,
    ensures
        final(out)@.len() == old(out)@.len() + plan_spec(w, h, *sel).len(),
        forall|k: int|
            0 <= k < old(out)@.len() ==> final(out)@[k] == old(out)@[k],
        forall|k: int|
            old(out)@.len() <= k < final(out)@.len() ==> outcome_for(
                final(out)@[k],
                output_dir@,
                base_name@,
                sel.format@,
                plan_spec(w, h, *sel)[k - old(out)@.len()],
            ),
{
    let targets = plan(w, h, sel);
    proof {
        lemma_plan_targets(w, h, *sel);
    }
    let ghost entered = out@;
    let ghost the_plan = plan_spec(w, h, *sel);
    let mut k: usize = 0;
    while k < targets.len()
        invariant
            raw@.len() == 4 * w * h,
            targets@ == the_plan,
            the_plan == plan_spec(w, h, *sel),
            k <= targets@.len(),
            out@.len() == entered.len() + k,
            forall|q: int| 0 <= q < entered.len() ==> out@[q] == entered[q],
            forall|q: int|
                entered.len() <= q < out@.len() ==> outcome_for(
                    out@[q],
                    output_dir@,
                    base_name@,
                    sel.format@,
                    the_plan[q - entered.len()],
                ),
            forall|q: int|
                0 <= q < the_plan.len() ==> {
                    let t = #[trigger] the_plan[q];
                    t.width >= 1 && t.height >= 1
                },
            the_plan.len() > 0 ==> w >= 1 && h >= 1,
        decreases targets@.len() - k,
    {
        let t = targets[k];
        let name = build_file_name(base_name, &t, sel.format.as_str());
        let full = join_path(output_dir, name.as_str());
        proof {
            assert((t.width as int) * (t.height as int) <= 0xffff_ffffi64 * 0xffff_ffffi64)
                by (nonlinear_arith)
                requires t.width <= 0xffff_ffffi64 && t.height <= 0xffff_ffffi64;
            assert((w as int) * (t.height as int) <= 0xffff_ffffi64 * 0xffff_ffffi64)
                by (nonlinear_arith)
                requires w <= 0xffff_ffffi64 && t.height <= 0xffff_ffffi64;
        }
        let area: u64 = (t.width as u64) * (t.height as u64);
        let mid_area: u64 = (w as u64) * (t.height as u64);
        let fits: bool = area <= (usize::MAX as u64) / 4 && mid_area <= (usize::MAX as u64) / 4;
        let outcome: ExportOutcome = if fits {
            proof {
                assert(4 * (t.width as int) * (t.height as int) == 4 * ((t.width as int) * (
                t.height as int))) by (nonlinear_arith);
                assert(4 * (t.width as int) * (t.height as int) <= usize::MAX);
                assert(4 * (w as int) * (t.height as int) == 4 * ((w as int) * (
                t.height as int))) by (nonlinear_arith);
                assert(4 * (w as int) * (t.height as int) <= usize::MAX);
            }
            let resized = resize_nearest(raw, w, h, t.width, t.height);
            if save_image_file(full.as_str(), t.width, t.height, &resized) {
                ExportOutcome::Written { path: full }
            } else {
                ExportOutcome::Skipped { reason: SkipReason::IOError }
            }
        } else {
            ExportOutcome::Skipped { reason: SkipReason::IOError }
        };
        out.push(outcome);
        k = k + 1;
    }
}

/// Exports the planned targets of one decoded buffer into `output_dir`
/// under `base_name`.
///
/// The output directory is checked once, up front: when the disk does not
/// name a directory there, nothing is written and the call fails with
/// `InvalidOutputDir`.  Otherwise the outcomes correspond one to one, in
/// order, to the plan of the buffer's dimensions: each target's file is
/// written at exactly its planned path, or skipped when the write fails.
pub fn export_single(b: &PixelBuffer, sel: &Config, output_dir: &str, base_name: &str) -> (r:
    Result<Vec<ExportOutcome>, ExportError>)
    requires
        b.wf(),
        4 * b.pixels@.len() <= usize::MAX,
    ensures
        match r {
            Ok(outs) => {
                &&& outs@.len() == plan_spec(b.width, b.height, *sel).len()
                &&& forall|k: int|
                    0 <= k < outs@.len() ==> outcome_for(
                        outs@[k],
                        output_dir@,
                        base_name@,
                        sel.format@,
                        plan_spec(b.width, b.height, *sel)[k],
                    )
            },
            Err(e) => e == ExportError::InvalidOutputDir,
        },
{
    if !path_is_dir(output_dir) {
        return Err(ExportError::InvalidOutputDir);
    }
    let raw = buffer_to_raw(b);
    let mut out: Vec<ExportOutcome> = Vec::new();
    export_one(&raw, b.width, b.height, sel, output_dir, base_name, &mut out);
    Ok(out)
}

/// Lists a directory: builds the glob pattern for the path and hands back
/// whatever the disk matched; an unusable path lists nothing.  What comes
/// back depends on the disk, so the contract of the pattern itself lives in
/// [`glob_string_from_path`].
pub fn list_dir(path: &str) -> Vec<String> {
    let pattern = match glob_string_from_path(
        path.to_owned(),
        path_is_file(path),
        path_is_dir(path),
        path_exists(path),
    ) {
        Ok(p) => p,
        Err(_) => {
            return Vec::new();
        },
    };
    glob_paths(pattern.as_str())
}

/// Exports every listed entry: an entry that does not decode yields one
/// `DecodeError` skip; a decoded one contributes one outcome per planned
/// target of its dimensions, under the base name
/// `{base_name}_{entry file name}`, which keeps names unique across the
/// batch.  The outcomes are exactly those blocks in listing order — so a
/// listing of nothing yields no outcomes and no error — and every written
/// file lies in the output directory.
pub fn export_entries(
    entries: &Vec<String>,
    sel: &Config,
    output_dir: &str,
    base_name: &str,
) -> (outs: Vec<ExportOutcome>)
    ensures
        batch_outcomes_ok(outs@, entries@, *sel, output_dir@, base_name@),
        entries@.len() == 0 ==> outs@.len() == 0,
        forall|k: int| 0 <= k < outs@.len() ==> written_under(#[trigger] outs@[k], output_dir@),
{
    let mut out: Vec<ExportOutcome> = Vec::new();
    let ghost mut blocks: Seq<Seq<ExportOutcome>> = Seq::empty();
    let mut i: usize = 0;
    while i < entries.len()
        invariant
            i <= entries@.len(),
            blocks.len() == i,
            out@ == blocks.flatten(),
            forall|q: int|
                0 <= q < blocks.len() ==> entry_block_ok(
                    #[trigger] blocks[q],
                    entries@[q]@,
                    *sel,
                    output_dir@,
                    base_name@,
                ),
            forall|k: int| 0 <= k < out@.len() ==> written_under(#[trigger] out@[k], output_dir@),
        decreases entries@.len() - i,
    {
        let entry = &entries[i];
        let ghost before = out@;
        let ghost prev_blocks = blocks;
        match decode_image_file(entry.as_str()) {
            None => {
                out.push(ExportOutcome::Skipped { reason: SkipReason::DecodeError });
                proof {
                    let block = seq![
                        ExportOutcome::Skipped { reason: SkipReason::DecodeError },
                    ];
                    blocks = prev_blocks.push(block);
                    prev_blocks.lemma_flatten_push(block);
                    assert(out@ =~= before + block);
                    assert(out@ =~= blocks.flatten());
                    assert(entry_block_ok(
                        block,
                        entries@[i as int]@,
                        *sel,
                        output_dir@,
                        base_name@,
                    ));
                }
            },
            Some((w, h, bytes)) => {
                let fname = crate::pathing::file_name_format(entry.as_str());
                let mut entry_base = String::from_str(base_name);
                entry_base.append("_");
                entry_base.append(fname.as_str());
                export_one(&bytes, w, h, sel, output_dir, entry_base.as_str(), &mut out);
                proof {
                    let the_plan = plan_spec(w, h, *sel);
                    let block = out@.skip(before.len() as int);
                    assert(entry_base@ =~= entry_base_of(base_name@, entries@[i as int]@));
                    assert(block.len() == the_plan.len());
                    assert forall|k: int| 0 <= k < block.len() implies outcome_for(
                        #[trigger] block[k],
                        output_dir@,
                        entry_base_of(base_name@, entries@[i as int]@),
                        sel.format@,
                        the_plan[k],
                    ) by {
                        assert(block[k] == out@[before.len() + k]);
                    }
                    assert(entry_block_ok(
                        block,
                        entries@[i as int]@,
                        *sel,
                        output_dir@,
                        base_name@,
                    ));
                    blocks = prev_blocks.push(block);
                    prev_blocks.lemma_flatten_push(block);
                    assert(out@ =~= before + block);
                    assert(out@ =~= blocks.flatten());
                    assert forall|k: int| 0 <= k < out@.len() implies written_under(
                        #[trigger] out@[k],
                        output_dir@,
                    ) by {
                        if k >= before.len() {
                            lemma_outcome_under(
                                out@[k],
                                output_dir@,
                                entry_base@,
                                sel.format@,
                                the_plan[k - before.len()],
                            );
                        }
                    }
                }
            },
        }
        i = i + 1;
    }
    proof {
        assert(batch_outcomes_ok(out@, entries@, *sel, output_dir@, base_name@)) by {
            assert(blocks.len() == entries@.len());
            assert(out@ == blocks.flatten());
        }
        if entries@.len() == 0 {
            assert(out@ =~= Seq::<ExportOutcome>::empty());
        }
    }
    out
}

/// Exports every decodable image the browsed directory lists.
///
/// The output directory is checked once, up front; a missing one is the
/// fatal `InvalidOutputDir` and nothing is written.  What the disk lists is
/// the disk's; for that listing the outcomes decompose entry by entry, as
/// [`export_entries`] states exactly — one decode skip or one outcome per
/// planned target per entry, one bad file never aborting the batch — and
/// every written file lies in the output directory.
pub fn export_directory(dir_path: &str, sel: &Config, output_dir: &str, base_name: &str) -> (r:
    Result<Vec<ExportOutcome>, ExportError>)
    ensures
        match r {
            Ok(outs) => {
                &&& outcomes_are_some_batch(outs@, *sel, output_dir@, base_name@)
                &&& forall|k: int|
                    0 <= k < outs@.len() ==> written_under(#[trigger] outs@[k], output_dir@)
            },
            Err(e) => e == ExportError::InvalidOutputDir,
        },
{
    if !path_is_dir(output_dir) {
        return Err(ExportError::InvalidOutputDir);
    }
    let entries = list_dir(dir_path);
    let outs = export_entries(&entries, sel, output_dir, base_name);
    proof {
        assert(outcomes_are_some_batch(outs@, *sel, output_dir@, base_name@)) by {
            assert(batch_outcomes_ok(outs@, entries@, *sel, output_dir@, base_name@));
        }
    }
    Ok(outs)
}

} // verus!
