//! The resize planner.
//!
//! From a source image's dimensions and an export selection the planner
//! derives the concrete output dimensions, one target per enabled axis and
//! size.  The controlling dimension becomes the requested size; the other
//! dimension is divided by the same whole scale factor, so the aspect ratio
//! is preserved up to truncation.  The plan's order is deterministic —
//! `Width` targets before `Height` targets, sizes ascending — which keeps
//! output file names reproducible.

use vstd::arithmetic::div_mod::{lemma_basic_div, lemma_div_nonincreasing};
use vstd::prelude::*;

use crate::selection::{maybe_size, Axis, Config};

verus! {

/// One planned output: the controlling axis, the requested power-of-two
/// size, and the concrete output dimensions.
#[derive(Clone, Copy, PartialEq, Eq, Structural, Debug)]
pub struct ResizeTarget {
    pub axis: Axis,
    pub target: u32,
    pub width: u32,
    pub height: u32,
}

/// The dimension the axis controls.
pub open spec fn controlling_dim(w: u32, h: u32, axis: Axis) -> int {
    match axis {
        Axis::Width => w as int,
        Axis::Height => h as int,
    }
}

/// The dimension the axis does not control.
pub open spec fn other_dim(w: u32, h: u32, axis: Axis) -> int {
    match axis {
        Axis::Width => h as int,
        Axis::Height => w as int,
    }
}

/// The whole scale factor for size `s`: the controlling dimension over `s`,
/// truncated.
pub open spec fn scale_factor(w: u32, h: u32, axis: Axis, s: int) -> int
    recommends
        s >= 1,
{
    controlling_dim(w, h, axis) / s
}

/// The companion output dimension: the other source dimension shrunk by the
/// same whole factor, truncated.
pub open spec fn companion_dim(w: u32, h: u32, axis: Axis, s: int) -> int
    recommends
        scale_factor(w, h, axis, s) >= 1,
{
    other_dim(w, h, axis) / scale_factor(w, h, axis, s)
}

/// Whether a target is emitted for this axis and size: only downscales whose
/// factor is at least one and whose output dimensions do not vanish.  A
/// degenerate source dimension of zero never emits.
pub open spec fn emits(w: u32, h: u32, axis: Axis, s: int) -> bool {
    &&& s >= 1
    &&& scale_factor(w, h, axis, s) >= 1
    &&& companion_dim(w, h, axis, s) >= 1
}

/// The emitted target for this axis and size.
pub open spec fn spec_target(w: u32, h: u32, axis: Axis, s: int) -> ResizeTarget
    recommends
        emits(w, h, axis, s),
{
    match axis {
        Axis::Width => ResizeTarget {
            axis: Axis::Width,
            target: s as u32,
            width: s as u32,
            height: companion_dim(w, h, axis, s) as u32,
        },
        Axis::Height => ResizeTarget {
            axis: Axis::Height,
            target: s as u32,
            width: companion_dim(w, h, axis, s) as u32,
            height: s as u32,
        },
    }
}

/// Zero or one target for one size.
pub open spec fn maybe_target(w: u32, h: u32, axis: Axis, s: int) -> Seq<ResizeTarget> {
    if emits(w, h, axis, s) {
        seq![spec_target(w, h, axis, s)]
    } else {
        Seq::empty()
    }
}

/// The targets of one axis for the sizes from position `i` on, in order.
pub open spec fn axis_plan_from(
    w: u32,
    h: u32,
    axis: Axis,
    sizes: Seq<usize>,
    i: int,
) -> Seq<ResizeTarget>
    decreases sizes.len() - i,
{
    if 0 <= i < sizes.len() {
        maybe_target(w, h, axis, sizes[i] as int) + axis_plan_from(w, h, axis, sizes, i + 1)
    } else {
        Seq::empty()
    }
}

/// The whole plan: the `Width` targets, then the `Height` targets, each over
/// the enabled sizes in ascending order.
pub open spec fn plan_spec(w: u32, h: u32, c: Config) -> Seq<ResizeTarget> {
    (if c.w {
        axis_plan_from(w, h, Axis::Width, c.sizes_spec(), 0)
    } else {
        Seq::empty()
    }) + (if c.h {
        axis_plan_from(w, h, Axis::Height, c.sizes_spec(), 0)
    } else {
        Seq::empty()
    })
}

/// Appends the targets of one axis to `out`.
fn push_axis_targets(out: &mut Vec<ResizeTarget>, w: u32, h: u32, axis: Axis, sizes: &Vec<usize>)
    ensures
        final(out)@ == old(out)@ + axis_plan_from(w, h, axis, sizes@, 0),
{
    let mut i: usize = 0;
    while i < sizes.len()
        invariant
            i <= sizes@.len(),
            out@ + axis_plan_from(w, h, axis, sizes@, i as int) == old(out)@ + axis_plan_from(
                w,
                h,
                axis,
                sizes@,
                0,
            ),
        decreases sizes@.len() - i,
    {
        let s: usize = sizes[i];
        let cd: u64 = match axis {
            Axis::Width => w as u64,
            Axis::Height => h as u64,
        };
        let od: u64 = match axis {
            Axis::Width => h as u64,
            Axis::Height => w as u64,
        };
        let ghost entered = out@;
        if s >= 1 {
            let factor: u64 = cd / (s as u64);
            if factor >= 1 {
                let comp: u64 = od / factor;
                if comp >= 1 {
                    proof {
                        assert(s <= cd) by {
                            if cd < s {
                                lemma_basic_div(cd as int, s as int);
                            }
                        }
                        lemma_div_nonincreasing(od as int, factor as int);
                    }
                    let t: ResizeTarget = match axis {
                        Axis::Width => ResizeTarget {
                            axis: Axis::Width,
                            target: s as u32,
                            width: s as u32,
                            height: comp as u32,
                        },
                        Axis::Height => ResizeTarget {
                            axis: Axis::Height,
                            target: s as u32,
                            width: comp as u32,
                            height: s as u32,
                        },
                    };
                    proof {
                        assert(emits(w, h, axis, s as int));
                        assert(t == spec_target(w, h, axis, s as int));
                    }
                    out.push(t);
                }
            }
        }
        proof {
            assert(out@ =~= entered + maybe_target(w, h, axis, sizes@[i as int] as int));
            assert(axis_plan_from(w, h, axis, sizes@, i as int) == maybe_target(
                w,
                h,
                axis,
                sizes@[i as int] as int,
            ) + axis_plan_from(w, h, axis, sizes@, i + 1));
            assert(out@ + axis_plan_from(w, h, axis, sizes@, i + 1) =~= entered + axis_plan_from(
                w,
                h,
                axis,
                sizes@,
                i as int,
            ));
        }
        i = i + 1;
    }
    proof {
        assert(axis_plan_from(w, h, axis, sizes@, sizes@.len() as int) =~= Seq::<
            ResizeTarget,
        >::empty());
        assert(out@ =~= out@ + axis_plan_from(w, h, axis, sizes@, sizes@.len() as int));
    }
}

/// Derives the ordered resize plan for a source of the given dimensions.
///
/// The result is exactly the plan the selection describes: for each enabled
/// axis (`Width` first) and each enabled size in ascending order, a target
/// whose controlling dimension is the size and whose companion dimension is
/// the other source dimension divided by the whole scale factor; sizes that
/// would upscale, and degenerate sources, emit nothing.
pub fn plan(width: u32, height: u32, sel: &Config) -> (r: Vec<ResizeTarget>)
    ensures
        r@ == plan_spec(width, height, *sel),
{
    let sizes = sel.nums();
    let mut out: Vec<ResizeTarget> = Vec::new();
    if sel.w {
        push_axis_targets(&mut out, width, height, Axis::Width, &sizes);
    }
    if sel.h {
        push_axis_targets(&mut out, width, height, Axis::Height, &sizes);
    }
    proof {
        assert(out@ =~= plan_spec(width, height, *sel));
    }
    out
}

/// `a` stands before `b` in the plan's order: `Width` targets precede
/// `Height` targets, and within one axis the requested sizes ascend.
pub open spec fn plan_before(a: ResizeTarget, b: ResizeTarget) -> bool {
    ||| a.axis is Width && b.axis is Height
    ||| a.axis == b.axis && a.target < b.target
}

/// All pairs of plan entries are ordered.
pub open spec fn plan_ordered(ts: Seq<ResizeTarget>) -> bool {
    forall|i: int, j: int|
        0 <= i < j < ts.len() ==> plan_before(ts[i], ts[j])
}

/// A sequence of sizes that ascends strictly.
spec fn strictly_ascending(s: Seq<usize>) -> bool {
    forall|i: int, j: int| 0 <= i < j < s.len() ==> s[i] < s[j]
}

/// Appending a run of larger sizes to an ascending run keeps it ascending.
proof fn lemma_append_ascending(a: Seq<usize>, b: Seq<usize>, m: usize)
    requires
        strictly_ascending(a),
        strictly_ascending(b),
        forall|i: int| 0 <= i < a.len() ==> a[i] < m,
        forall|i: int| 0 <= i < b.len() ==> m <= b[i],
    ensures
        strictly_ascending(a + b),
{
    assert forall|i: int, j: int| 0 <= i < j < (a + b).len() implies (a + b)[i] < (a + b)[j] by {
        if j < a.len() {
        } else if i >= a.len() {
        } else {
            assert((a + b)[i] == a[i]);
            assert((a + b)[j] == b[j - a.len()]);
        }
    }
}

/// The enabled sizes ascend strictly and lie between 16 and 512.
#[verifier::rlimit(50)]
proof fn lemma_sizes_spec_ascending(c: Config)
    ensures
        strictly_ascending(c.sizes_spec()),
        forall|j: int| 0 <= j < c.sizes_spec().len() ==> 16 <= #[trigger] c.sizes_spec()[j] <= 512,
{
    let a1 = maybe_size(c.x16, 16);
    let a2 = a1 + maybe_size(c.x32, 32);
    let a3 = a2 + maybe_size(c.x64, 64);
    let a4 = a3 + maybe_size(c.x128, 128);
    let a5 = a4 + maybe_size(c.x256, 256);
    let a6 = a5 + maybe_size(c.x512, 512);
    lemma_append_ascending(a1, maybe_size(c.x32, 32), 32);
    assert(forall|i: int| 0 <= i < a2.len() ==> a2[i] < 64);
    lemma_append_ascending(a2, maybe_size(c.x64, 64), 64);
    assert(forall|i: int| 0 <= i < a3.len() ==> a3[i] < 128);
    lemma_append_ascending(a3, maybe_size(c.x128, 128), 128);
    assert(forall|i: int| 0 <= i < a4.len() ==> a4[i] < 256);
    lemma_append_ascending(a4, maybe_size(c.x256, 256), 256);
    assert(forall|i: int| 0 <= i < a5.len() ==> a5[i] < 512);
    lemma_append_ascending(a5, maybe_size(c.x512, 512), 512);
    assert(c.sizes_spec() == a6);
    assert(forall|j: int| 0 <= j < a6.len() ==> 16 <= #[trigger] a6[j] <= 512);
}

/// Within one axis the emitted targets carry the sizes they came from, so
/// they ascend with them.
proof fn lemma_axis_plan_props(w: u32, h: u32, axis: Axis, sizes: Seq<usize>, i: int)
    requires
        strictly_ascending(sizes),
        forall|j: int| 0 <= j < sizes.len() ==> 1 <= #[trigger] sizes[j] <= u32::MAX,
    ensures
        forall|k: int|
            0 <= k < axis_plan_from(w, h, axis, sizes, i).len() ==> axis_plan_from(
                w,
                h,
                axis,
                sizes,
                i,
            )[k].axis == axis,
        forall|k1: int, k2: int|
            0 <= k1 < k2 < axis_plan_from(w, h, axis, sizes, i).len() ==> axis_plan_from(
                w,
                h,
                axis,
                sizes,
                i,
            )[k1].target < axis_plan_from(w, h, axis, sizes, i)[k2].target,
        0 <= i < sizes.len() ==> forall|k: int|
            0 <= k < axis_plan_from(w, h, axis, sizes, i).len() ==> sizes[i] <= axis_plan_from(
                w,
                h,
                axis,
                sizes,
                i,
            )[k].target,
    decreases sizes.len() - i,
{
    if 0 <= i < sizes.len() {
        lemma_axis_plan_props(w, h, axis, sizes, i + 1);
        let head = maybe_target(w, h, axis, sizes[i] as int);
        let rest = axis_plan_from(w, h, axis, sizes, i + 1);
        let whole = axis_plan_from(w, h, axis, sizes, i);
        assert(whole == head + rest);
        assert forall|k: int| 0 <= k < whole.len() implies sizes[i] <= whole[k].target
            && whole[k].axis == axis by {
            if k < head.len() {
                assert(whole[k] == spec_target(w, h, axis, sizes[i] as int));
            } else {
                assert(whole[k] == rest[k - head.len()]);
                assert(i + 1 < sizes.len());
                assert(sizes[i] < sizes[i + 1]);
            }
        }
        assert forall|k1: int, k2: int| 0 <= k1 < k2 < whole.len() implies whole[k1].target
            < whole[k2].target by {
            if k1 >= head.len() {
                assert(whole[k1] == rest[k1 - head.len()]);
                assert(whole[k2] == rest[k2 - head.len()]);
            } else {
                assert(whole[k1] == spec_target(w, h, axis, sizes[i] as int));
                assert(whole[k2] == rest[k2 - head.len()]);
                assert(i + 1 < sizes.len());
                assert(sizes[i + 1] <= whole[k2].target);
                assert(sizes[i] < sizes[i + 1]);
            }
        }
    }
}

/// Every emitted target's output dimensions are positive, and only a
/// nondegenerate source emits at all.
proof fn lemma_axis_plan_positive(w: u32, h: u32, axis: Axis, sizes: Seq<usize>, i: int)
    requires
        forall|j: int| 0 <= j < sizes.len() ==> 1 <= #[trigger] sizes[j] <= u32::MAX,
    ensures
        forall|k: int|
            0 <= k < axis_plan_from(w, h, axis, sizes, i).len() ==> {
                let t = #[trigger] axis_plan_from(w, h, axis, sizes, i)[k];
                t.width >= 1 && t.height >= 1
            },
        axis_plan_from(w, h, axis, sizes, i).len() > 0 ==> w >= 1 && h >= 1,
    decreases sizes.len() - i,
{
    if 0 <= i < sizes.len() {
        lemma_axis_plan_positive(w, h, axis, sizes, i + 1);
        let s = sizes[i] as int;
        let head = maybe_target(w, h, axis, s);
        let rest = axis_plan_from(w, h, axis, sizes, i + 1);
        let whole = axis_plan_from(w, h, axis, sizes, i);
        assert(whole == head + rest);
        if emits(w, h, axis, s) {
            lemma_div_nonincreasing(other_dim(w, h, axis), scale_factor(w, h, axis, s));
            assert(1 <= companion_dim(w, h, axis, s) <= other_dim(w, h, axis));
            assert(s <= controlling_dim(w, h, axis)) by {
                if controlling_dim(w, h, axis) < s {
                    lemma_basic_div(controlling_dim(w, h, axis), s);
                }
            }
        }
        assert forall|k: int| 0 <= k < whole.len() implies {
            let t = #[trigger] whole[k];
            t.width >= 1 && t.height >= 1
        } by {
            if k < head.len() {
                assert(whole[k] == spec_target(w, h, axis, s));
            } else {
                assert(whole[k] == rest[k - head.len()]);
            }
        }
    }
}

/// Every planned target has positive output dimensions, and a nonempty plan
/// only arises for a source with positive dimensions.
pub proof fn lemma_plan_targets(w: u32, h: u32, c: Config)
    ensures
        forall|k: int|
            0 <= k < plan_spec(w, h, c).len() ==> {
                let t = #[trigger] plan_spec(w, h, c)[k];
                t.width >= 1 && t.height >= 1
            },
        plan_spec(w, h, c).len() > 0 ==> w >= 1 && h >= 1,
{
    lemma_sizes_spec_ascending(c);
    let sizes = c.sizes_spec();
    lemma_axis_plan_positive(w, h, Axis::Width, sizes, 0);
    lemma_axis_plan_positive(w, h, Axis::Height, sizes, 0);
    let wp = if c.w {
        axis_plan_from(w, h, Axis::Width, sizes, 0)
    } else {
        Seq::<ResizeTarget>::empty()
    };
    let hp = if c.h {
        axis_plan_from(w, h, Axis::Height, sizes, 0)
    } else {
        Seq::<ResizeTarget>::empty()
    };
    let whole = plan_spec(w, h, c);
    assert(whole == wp + hp);
    assert forall|k: int| 0 <= k < whole.len() implies {
        let t = #[trigger] whole[k];
        t.width >= 1 && t.height >= 1
    } by {
        if k < wp.len() {
            assert(whole[k] == wp[k]);
        } else {
            assert(whole[k] == hp[k - wp.len()]);
        }
    }
}

/// The plan is sorted: `Width` targets before `Height` targets, and the
/// requested sizes ascend strictly within each axis.
pub proof fn lemma_plan_sorted(w: u32, h: u32, c: Config)
    ensures
        plan_ordered(plan_spec(w, h, c)),
{
    lemma_sizes_spec_ascending(c);
    let sizes = c.sizes_spec();
    lemma_axis_plan_props(w, h, Axis::Width, sizes, 0);
    lemma_axis_plan_props(w, h, Axis::Height, sizes, 0);
    let wp = if c.w {
        axis_plan_from(w, h, Axis::Width, sizes, 0)
    } else {
        Seq::<ResizeTarget>::empty()
    };
    let hp = if c.h {
        axis_plan_from(w, h, Axis::Height, sizes, 0)
    } else {
        Seq::<ResizeTarget>::empty()
    };
    let whole = plan_spec(w, h, c);
    assert(whole == wp + hp);
    assert forall|i: int, j: int| 0 <= i < j < whole.len() implies plan_before(
        whole[i],
        whole[j],
    ) by {
        if j < wp.len() {
            assert(whole[i] == wp[i] && whole[j] == wp[j]);
        } else if i >= wp.len() {
            assert(whole[i] == hp[i - wp.len()] && whole[j] == hp[j - wp.len()]);
        } else {
            assert(whole[i] == wp[i] && whole[j] == hp[j - wp.len()]);
        }
    }
}

} // verus!
