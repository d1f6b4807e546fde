//! The compute engine: owns the image buffers, schedules dirty regions by
//! their distance to the user's focus, applies settings changes with the
//! least possible recomputation, and renders escape counts to pixels.
//!
//! The engine is purely integer: the per-pixel escape computation, which
//! needs floating point, is supplied by the caller as a function from pixel
//! coordinates to an escape count, and the complex-plane bookkeeping is the
//! caller's too.

use crate::gradient::spec_make_palette;
use crate::gradient::MAX_ITERATION_LIMIT;
use crate::image::Image;
use crate::rect::RectRegion;
use crate::rect::MAX_COORD;
use crate::rect::MAX_DIM;
use crate::settings::EngineSettings;
use vstd::prelude::*;

verus! {

/// A dirty region together with its scheduling priority: the negated
/// squared distance from the region to the focus point at the time it was
/// enqueued, so that greater `d` means more urgent.
#[derive(Clone, Copy, Debug)]
pub struct ByDistToFocus {
    pub d: i64,
    pub value: RectRegion,
}

impl ByDistToFocus {
    /// Price a region against a focus point.
    pub fn of(value: RectRegion, focus: (usize, usize)) -> (r: Self)
        requires
            value.wf(),
            focus.0 <= MAX_COORD,
            focus.1 <= MAX_COORD,
        ensures
            r.value == value,
            r.d == -value.spec_squared_distance_to(focus.0 as int, focus.1 as int),
    {
        let d = value.squared_distance_to((focus.0 as i32, focus.1 as i32));
        ByDistToFocus { d: -d, value }
    }

    /// Move this entry's region along with a pan by `(dx, dy)`: shift it the
    /// opposite way, clip it to the image, and price it against the image
    /// center, the focus a pan resets to.
    pub fn pan(self, dx: i32, dy: i32, img: &Image) -> (r: Self)
        requires
            self.value.wf(),
            img.wf(),
        ensures
            r == spec_priced(
                spec_shift_clip(self.value, dx as int, dy as int, img.width as int, img.height as int),
                (img.width / 2) as int,
                (img.height / 2) as int,
            ),
    {
        let value = shift_clip(self.value, dx, dy, img.width, img.height);
        Self::of(value, (img.width / 2, img.height / 2))
    }
}

/// Whether a region lies inside a `w` by `h` image.
pub open spec fn region_in_image(r: RectRegion, w: int, h: int) -> bool {
    &&& r.wf()
    &&& 0 <= r.x0
    &&& r.x0 + r.w <= w
    &&& 0 <= r.y0
    &&& r.y0 + r.h <= h
}

/// Index of the pixel at `(x, y)` in a row-major buffer of width `w`.
pub open spec fn pixel_index(x: int, y: int, w: int) -> int {
    x + y * w
}

/// Whether `(x, y)` lies inside a `w` by `h` image.
pub open spec fn in_image(x: int, y: int, w: int, h: int) -> bool {
    0 <= x < w && 0 <= y < h
}

/// Whether buffer index `j` is written by one of the first `upto` border
/// positions of `region` that fall inside the image.
pub open spec fn is_border_target_upto(
    region: RectRegion,
    w: int,
    h: int,
    j: int,
    upto: int,
) -> bool {
    exists|bi: int|
        {
            &&& 0 <= bi < upto
            &&& in_image(
                (#[trigger] region.border_point(bi)).0,
                region.border_point(bi).1,
                w,
                h,
            )
            &&& pixel_index(region.border_point(bi).0, region.border_point(bi).1, w) == j
        }
}

/// Whether buffer index `j` is written by one of the first `upto` interior
/// positions of `region` that fall inside the image.
pub open spec fn is_interior_target_upto(
    region: RectRegion,
    w: int,
    h: int,
    j: int,
    upto: int,
) -> bool {
    exists|ii: int|
        {
            &&& 0 <= ii < upto
            &&& in_image(
                (#[trigger] region.interior_seq()[ii]).0,
                region.interior_seq()[ii].1,
                w,
                h,
            )
            &&& pixel_index(region.interior_seq()[ii].0, region.interior_seq()[ii].1, w) == j
        }
}

/// Whether none of the first `upto` in-image border positions escaped: each
/// of their escape counts reached the iteration cap.
pub open spec fn border_none_escaped_upto(
    region: RectRegion,
    counts: Seq<u32>,
    w: int,
    h: int,
    limit: int,
    upto: int,
) -> bool {
    forall|bi: int|
        0 <= bi < upto && in_image(
            (#[trigger] region.border_point(bi)).0,
            region.border_point(bi).1,
            w,
            h,
        ) ==> counts[bi] >= limit
}

/// The total of the escape counts at the first `upto` border positions that
/// fall inside the image.
pub open spec fn border_work_sum(
    region: RectRegion,
    counts: Seq<u32>,
    w: int,
    h: int,
    upto: int,
) -> int
    decreases upto,
{
    if upto <= 0 {
        0
    } else {
        border_work_sum(region, counts, w, h, upto - 1) + (if in_image(
            region.border_point(upto - 1).0,
            region.border_point(upto - 1).1,
            w,
            h,
        ) {
            counts[upto - 1] as int
        } else {
            0
        })
    }
}

/// A pixel inside a `w` by `h` image has its row-major index inside the
/// buffer.
proof fn lemma_pixel_index_bounds(x: int, y: int, w: int, h: int)
    requires
        in_image(x, y, w, h),
    ensures
        0 <= pixel_index(x, y, w) < w * h,
{
    assert(0 <= x + y * w < w * h) by (nonlinear_arith)
        requires
            0 <= x < w && 0 <= y < h,
    ;
}

/// Distinct border positions name distinct pixels.
proof fn lemma_border_points_distinct(region: RectRegion)
    requires
        region.wf(),
    ensures
        forall|i: int, j: int|
            0 <= i < j < region.border_len() ==> #[trigger] region.border_point(i)
                != #[trigger] region.border_point(j),
{
}

/// An interior position of a region never names the same pixel as one of
/// its border positions.
proof fn lemma_border_interior_disjoint(region: RectRegion)
    requires
        region.wf(),
    ensures
        forall|bi: int, ii: int|
            0 <= bi < region.border_len() && 0 <= ii < region.spec_interior_len()
                ==> #[trigger] region.border_point(bi) != #[trigger] region.interior_seq()[ii],
{
    assert forall|bi: int, ii: int|
        0 <= bi < region.border_len() && 0 <= ii < region.spec_interior_len()
        implies #[trigger] region.border_point(bi) != #[trigger] region.interior_seq()[ii] by {
        let iw = region.interior_w();
        let ih = region.interior_h();
        assert(iw > 0 && ih > 0) by (nonlinear_arith)
            requires
                iw >= 0 && ih >= 0 && iw * ih > 0,
        ;
        assert(0 <= ii % iw < iw) by {
            vstd::arithmetic::div_mod::lemma_mod_bound(ii, iw);
        }
        assert(0 <= ii / iw < ih) by {
            vstd::arithmetic::div_mod::lemma_div_pos_is_pos(ii, iw);
            assert(ii <= (ih - 1) * iw + (iw - 1)) by (nonlinear_arith)
                requires
                    0 <= ii < iw * ih && iw > 0 && ih > 0,
            ;
            vstd::arithmetic::div_mod::lemma_div_is_ordered(ii, (ih - 1) * iw + (iw - 1), iw);
            assert(((ih - 1) * iw + (iw - 1)) / iw == ih - 1) by {
                vstd::arithmetic::div_mod::lemma_hoist_over_denominator(iw - 1, ih - 1, iw as nat);
                assert((ih - 1) * iw == iw * (ih - 1)) by (nonlinear_arith);
                vstd::arithmetic::div_mod::lemma_basic_div(iw - 1, iw);
            }
        }
    }
}

/// Two distinct pixels of a `w`-wide image have distinct buffer indices.
proof fn lemma_pixel_index_injective(x1: int, y1: int, x2: int, y2: int, w: int, h: int)
    requires
        in_image(x1, y1, w, h),
        in_image(x2, y2, w, h),
        pixel_index(x1, y1, w) == pixel_index(x2, y2, w),
    ensures
        x1 == x2 && y1 == y2,
{
    assert(x1 == x2 && y1 == y2) by (nonlinear_arith)
        requires
            0 <= x1 < w && 0 <= x2 < w && 0 <= y1 < h && 0 <= y2 < h && x1 + y1 * w == x2 + y2 * w,
    ;
}

/// `v` forced into `[lo, hi]`.
pub open spec fn clamp_int(v: int, lo: int, hi: int) -> int {
    if v < lo {
        lo
    } else if v > hi {
        hi
    } else {
        v
    }
}

/// A region shifted by `(-dx, -dy)` and clipped to a `w` by `h` image: what
/// a queued dirty region becomes under a pan. The parts that leave the
/// image are dropped; if they ever scroll back in, the pan that brings them
/// back marks them dirty through its entering strips.
pub open spec fn spec_shift_clip(r: RectRegion, dx: int, dy: int, w: int, h: int) -> RectRegion {
    let x0 = clamp_int(r.x0 - dx, 0, w);
    let x1 = clamp_int(r.x0 + r.w - dx, x0, w);
    let y0 = clamp_int(r.y0 - dy, 0, h);
    let y1 = clamp_int(r.y0 + r.h - dy, y0, h);
    RectRegion { x0: x0 as i32, y0: y0 as i32, w: (x1 - x0) as i32, h: (y1 - y0) as i32 }
}

/// The vertical strip of fresh pixels a pan by `(dx, dy)` exposes: the
/// entering `|dx|` columns, full height, clipped to the image.
pub open spec fn spec_pan_vstrip(dx: int, w: int, h: int) -> RectRegion {
    let x0 = if dx < 0 {
        0
    } else {
        clamp_int(w - dx, 0, w)
    };
    let x1 = if dx < 0 {
        clamp_int(-dx, 0, w)
    } else {
        w
    };
    RectRegion { x0: x0 as i32, y0: 0, w: (x1 - x0) as i32, h: h as i32 }
}

/// The horizontal strip of fresh pixels a pan by `(dx, dy)` exposes: the
/// entering `|dy|` rows over the columns the vertical strip does not cover.
pub open spec fn spec_pan_hstrip(dx: int, dy: int, w: int, h: int) -> RectRegion {
    let y0 = if dy < 0 {
        0
    } else {
        clamp_int(h - dy, 0, h)
    };
    let y1 = if dy < 0 {
        clamp_int(-dy, 0, h)
    } else {
        h
    };
    let x0 = if dx < 0 {
        clamp_int(-dx, 0, w)
    } else {
        0
    };
    let x1 = if dx < 0 {
        w
    } else {
        clamp_int(w - dx, 0, w)
    };
    RectRegion { x0: x0 as i32, y0: y0 as i32, w: (x1 - x0) as i32, h: (y1 - y0) as i32 }
}

/// The negation of an `i32` pixel delta, saturated into `i32` range; only
/// deltas beyond the largest image dimension are affected by the
/// saturation, and those wipe the whole image anyway.
pub open spec fn spec_neg_sat(v: int) -> int {
    if -v > i32::MAX {
        i32::MAX as int
    } else {
        -v
    }
}

/// The queue entry for a region priced against the focus `(fx, fy)`.
pub open spec fn spec_priced(r: RectRegion, fx: int, fy: int) -> ByDistToFocus {
    ByDistToFocus { d: (-r.spec_squared_distance_to(fx, fy)) as i64, value: r }
}

/// What a pan by `(dx, dy)` makes of the region queue of a `w` by `h`
/// image: every entry shifted, clipped and re-priced at the new focus (the
/// image center), followed by the two strips of freshly exposed pixels.
pub open spec fn pan_heap(s: Seq<ByDistToFocus>, dx: int, dy: int, w: int, h: int) -> Seq<
    ByDistToFocus,
> {
    let fx = w / 2;
    let fy = h / 2;
    Seq::new(s.len(), |i: int| spec_priced(spec_shift_clip(s[i].value, dx, dy, w, h), fx, fy))
        + seq![
        spec_priced(spec_pan_vstrip(dx, w, h), fx, fy),
        spec_priced(spec_pan_hstrip(dx, dy, w, h), fx, fy),
    ]
}

/// See `spec_shift_clip`.
fn shift_clip(r: RectRegion, dx: i32, dy: i32, width: usize, height: usize) -> (out: RectRegion)
    requires
        r.wf(),
        width <= MAX_DIM,
        height <= MAX_DIM,
    ensures
        out == spec_shift_clip(r, dx as int, dy as int, width as int, height as int),
        out.wf(),
        region_in_image(out, width as int, height as int),
{
    let w = width as i64;
    let h = height as i64;
    let x0 = clamp_i64(r.x0 as i64 - dx as i64, 0, w);
    let x1 = clamp_i64(r.x0 as i64 + r.w as i64 - dx as i64, x0, w);
    let y0 = clamp_i64(r.y0 as i64 - dy as i64, 0, h);
    let y1 = clamp_i64(r.y0 as i64 + r.h as i64 - dy as i64, y0, h);
    RectRegion { x0: x0 as i32, y0: y0 as i32, w: (x1 - x0) as i32, h: (y1 - y0) as i32 }
}

/// See `spec_pan_vstrip`.
fn pan_vstrip(dx: i32, width: usize, height: usize) -> (out: RectRegion)
    requires
        width <= MAX_DIM,
        height <= MAX_DIM,
    ensures
        out == spec_pan_vstrip(dx as int, width as int, height as int),
        out.wf(),
        region_in_image(out, width as int, height as int),
{
    let w = width as i64;
    let h = height as i64;
    let x0 = if dx < 0 {
        0
    } else {
        clamp_i64(w - dx as i64, 0, w)
    };
    let x1 = if dx < 0 {
        clamp_i64(-(dx as i64), 0, w)
    } else {
        w
    };
    RectRegion { x0: x0 as i32, y0: 0, w: (x1 - x0) as i32, h: h as i32 }
}

/// See `spec_pan_hstrip`.
fn pan_hstrip(dx: i32, dy: i32, width: usize, height: usize) -> (out: RectRegion)
    requires
        width <= MAX_DIM,
        height <= MAX_DIM,
    ensures
        out == spec_pan_hstrip(dx as int, dy as int, width as int, height as int),
        out.wf(),
        region_in_image(out, width as int, height as int),
{
    let w = width as i64;
    let h = height as i64;
    let y0 = if dy < 0 {
        0
    } else {
        clamp_i64(h - dy as i64, 0, h)
    };
    let y1 = if dy < 0 {
        clamp_i64(-(dy as i64), 0, h)
    } else {
        h
    };
    let x0 = if dx < 0 {
        clamp_i64(-(dx as i64), 0, w)
    } else {
        0
    };
    let x1 = if dx < 0 {
        w
    } else {
        clamp_i64(w - dx as i64, 0, w)
    };
    RectRegion { x0: x0 as i32, y0: y0 as i32, w: (x1 - x0) as i32, h: (y1 - y0) as i32 }
}

/// `v` forced into `[lo, hi]`.
fn clamp_i64(v: i64, lo: i64, hi: i64) -> (r: i64)
    requires
        lo <= hi,
    ensures
        r == clamp_int(v as int, lo as int, hi as int),
        lo <= r <= hi,
{
    if v < lo {
        lo
    } else if v > hi {
        hi
    } else {
        v
    }
}

/// Whether entry `i` of the queue is the one `pop_dirty` removes: no entry
/// has a better priority, and `i` is the earliest among ties.
pub open spec fn is_most_urgent(heap: Seq<ByDistToFocus>, i: int) -> bool {
    &&& 0 <= i < heap.len()
    &&& forall|j: int| 0 <= j < heap.len() ==> (#[trigger] heap[j]).d <= heap[i].d
    &&& forall|j: int| 0 <= j < i ==> (#[trigger] heap[j]).d < heap[i].d
}

/// Whether every queued entry's stored priority is the negated squared
/// distance of its region to the focus `(fx, fy)`. Every site that enqueues
/// an entry prices it this way against the focus of that moment; a later
/// focus move leaves the stored prices in place until the queue is next
/// rebuilt, as a pan or any full re-dirtify does.
pub open spec fn heap_priced_at(heap: Seq<ByDistToFocus>, fx: int, fy: int) -> bool {
    forall|k: int|
        0 <= k < heap.len() ==> (#[trigger] heap[k]).d == -heap[k].value.spec_squared_distance_to(
            fx,
            fy,
        )
}

/// While the stored prices are current for a focus, the entry `pop_dirty`
/// removes is a region whose squared distance to that focus is no greater
/// than any other queued region's.
pub proof fn lemma_pop_min_distance(heap: Seq<ByDistToFocus>, i: int, fx: int, fy: int)
    requires
        is_most_urgent(heap, i),
        heap_priced_at(heap, fx, fy),
    ensures
        forall|j: int|
            0 <= j < heap.len() ==> heap[i].value.spec_squared_distance_to(fx, fy) <= (
            #[trigger] heap[j]).value.spec_squared_distance_to(fx, fy),
{
}

/// One step of the scheduler over its abstract state (the escape-count
/// buffer and the region queue), with queue entry `i` the one consumed:
/// entry `i` is the most urgent, and it is removed and consumed exactly as
/// `process_region` says, given the escape counts `rcounts` for its border
/// positions; `wk` is the (unsaturated) work done.
pub open spec fn scheduler_step_at(
    counts: Seq<u32>,
    heap: Seq<ByDistToFocus>,
    region: RectRegion,
    rcounts: Seq<u32>,
    counts2: Seq<u32>,
    heap2: Seq<ByDistToFocus>,
    wk: int,
    w: int,
    h: int,
    limit: int,
    focus: (usize, usize),
    i: int,
) -> bool {
    &&& is_most_urgent(heap, i)
    &&& heap[i].value == region
    &&& rcounts.len() == region.border_len()
    &&& counts2.len() == counts.len()
    &&& forall|bi: int|
        0 <= bi < region.border_len() && in_image(
            (#[trigger] region.border_point(bi)).0,
            region.border_point(bi).1,
            w,
            h,
        ) ==> counts2[pixel_index(
            region.border_point(bi).0,
            region.border_point(bi).1,
            w,
        )] == rcounts[bi]
    &&& {
        let blen = region.border_len();
        let filled = border_none_escaped_upto(region, rcounts, w, h, limit, blen);
        let bwork = border_work_sum(region, rcounts, w, h, blen);
        if filled {
            &&& forall|ii: int|
                0 <= ii < region.spec_interior_len() && in_image(
                    (#[trigger] region.interior_seq()[ii]).0,
                    region.interior_seq()[ii].1,
                    w,
                    h,
                ) ==> counts2[pixel_index(
                    region.interior_seq()[ii].0,
                    region.interior_seq()[ii].1,
                    w,
                )] == limit as u32
            &&& forall|j: int|
                0 <= j < counts.len() && !is_border_target_upto(region, w, h, j, blen)
                    && !is_interior_target_upto(
                    region,
                    w,
                    h,
                    j,
                    region.spec_interior_len(),
                ) ==> counts2[j] == counts[j]
            &&& heap2 == heap.remove(i)
            &&& wk == bwork + region.spec_interior_len()
        } else {
            &&& forall|j: int|
                0 <= j < counts.len() && !is_border_target_upto(region, w, h, j, blen)
                    ==> counts2[j] == counts[j]
            &&& (region.spec_trisect() matches Some((r1, r2, r3)) ==> heap2 =~= heap.remove(i)
                + seq![
                spec_priced(r1, focus.0 as int, focus.1 as int),
                spec_priced(r2, focus.0 as int, focus.1 as int),
                spec_priced(r3, focus.0 as int, focus.1 as int),
            ])
            &&& (region.spec_trisect() is None ==> heap2 == heap.remove(i))
            &&& wk == bwork
        }
    }
}

/// One step of the scheduler: some most urgent entry is consumed; see
/// `scheduler_step_at`.
pub open spec fn scheduler_step(
    counts: Seq<u32>,
    heap: Seq<ByDistToFocus>,
    region: RectRegion,
    rcounts: Seq<u32>,
    counts2: Seq<u32>,
    heap2: Seq<ByDistToFocus>,
    wk: int,
    w: int,
    h: int,
    limit: int,
    focus: (usize, usize),
) -> bool {
    exists|i: int|
        #[trigger] scheduler_step_at(
            counts,
            heap,
            region,
            rcounts,
            counts2,
            heap2,
            wk,
            w,
            h,
            limit,
            focus,
            i,
        )
}

/// A run of scheduler steps from one abstract state to another, doing
/// `total` units of work in all. Each step consumes the most urgent queued
/// region, so a trace is the whole story of a `compute` call.
pub open spec fn scheduler_trace(
    counts0: Seq<u32>,
    heap0: Seq<ByDistToFocus>,
    steps: Seq<(RectRegion, Seq<u32>)>,
    counts1: Seq<u32>,
    heap1: Seq<ByDistToFocus>,
    total: int,
    w: int,
    h: int,
    limit: int,
    focus: (usize, usize),
) -> bool
    decreases steps.len(),
{
    if steps.len() == 0 {
        counts1 == counts0 && heap1 == heap0 && total == 0
    } else {
        exists|mid: (Seq<u32>, Seq<ByDistToFocus>, int)|
            {
                &&& #[trigger] scheduler_step(
                    counts0,
                    heap0,
                    steps[0].0,
                    steps[0].1,
                    mid.0,
                    mid.1,
                    mid.2,
                    w,
                    h,
                    limit,
                    focus,
                )
                &&& mid.2 >= 0
                &&& scheduler_trace(
                    mid.0,
                    mid.1,
                    steps.drop_first(),
                    counts1,
                    heap1,
                    total - mid.2,
                    w,
                    h,
                    limit,
                    focus,
                )
            }
    }
}

/// Whether every escape count of every step satisfies the caller's
/// function's postcondition at that step's own border position: the
/// scheduler handed each border pixel's coordinates to the caller's
/// function and stored exactly what came back.
pub open spec fn steps_checked<F: Fn(i32, i32) -> u32>(
    check: F,
    steps: Seq<(RectRegion, Seq<u32>)>,
) -> bool {
    forall|k: int, bi: int|
        0 <= k < steps.len() && 0 <= bi < steps[k].1.len() ==> call_ensures(
            check,
            (
                ((steps[k].0.border_point(bi)).0) as i32,
                ((steps[k].0.border_point(bi)).1) as i32,
            ),
            #[trigger] steps[k].1[bi],
        )
}

/// Where every escape count of a run comes from: after a trace of checked
/// steps, each buffer entry is either untouched, the iteration cap (written
/// by a border-enclosed fill), or a value the caller's function returned
/// for that entry's own pixel. A caller whose function never lowers the
/// count of an escaped pixel when the cap is raised can conclude from this
/// that recomputing under a higher cap keeps or raises every count.
pub proof fn lemma_trace_count_provenance<F: Fn(i32, i32) -> u32>(
    check: F,
    counts0: Seq<u32>,
    heap0: Seq<ByDistToFocus>,
    steps: Seq<(RectRegion, Seq<u32>)>,
    counts1: Seq<u32>,
    heap1: Seq<ByDistToFocus>,
    total: int,
    w: int,
    h: int,
    limit: int,
    focus: (usize, usize),
)
    requires
        scheduler_trace(counts0, heap0, steps, counts1, heap1, total, w, h, limit, focus),
        steps_checked(check, steps),
        w <= i32::MAX,
        h <= i32::MAX,
    ensures
        counts1.len() == counts0.len(),
        forall|j: int|
            0 <= j < counts1.len() ==> {
                ||| #[trigger] counts1[j] == counts0[j]
                ||| counts1[j] == limit as u32
                ||| exists|x: i32, y: i32|
                    {
                        &&& #[trigger] call_ensures(check, (x, y), counts1[j])
                        &&& in_image(x as int, y as int, w, h)
                        &&& pixel_index(x as int, y as int, w) == j
                    }
            },
    decreases steps.len(),
{
    if steps.len() == 0 {
    } else {
        let mid = choose|mid: (Seq<u32>, Seq<ByDistToFocus>, int)|
            {
                &&& #[trigger] scheduler_step(
                    counts0,
                    heap0,
                    steps[0].0,
                    steps[0].1,
                    mid.0,
                    mid.1,
                    mid.2,
                    w,
                    h,
                    limit,
                    focus,
                )
                &&& mid.2 >= 0
                &&& scheduler_trace(
                    mid.0,
                    mid.1,
                    steps.drop_first(),
                    counts1,
                    heap1,
                    total - mid.2,
                    w,
                    h,
                    limit,
                    focus,
                )
            };
        assert(steps_checked(check, steps.drop_first())) by {
            assert forall|k: int, bi: int|
                0 <= k < steps.drop_first().len() && 0 <= bi
                    < steps.drop_first()[k].1.len() implies call_ensures(
                check,
                (
                    ((steps.drop_first()[k].0.border_point(bi)).0) as i32,
                    ((steps.drop_first()[k].0.border_point(bi)).1) as i32,
                ),
                #[trigger] steps.drop_first()[k].1[bi],
            ) by {
                assert(steps.drop_first()[k] == steps[k + 1]);
                assert(steps[k + 1].1[bi] == steps.drop_first()[k].1[bi]);
            }
        }
        lemma_trace_count_provenance(
            check,
            mid.0,
            mid.1,
            steps.drop_first(),
            counts1,
            heap1,
            total - mid.2,
            w,
            h,
            limit,
            focus,
        );
        let region = steps[0].0;
        let rcounts = steps[0].1;
        let i = choose|i: int|
            #[trigger] scheduler_step_at(
                counts0,
                heap0,
                steps[0].0,
                steps[0].1,
                mid.0,
                mid.1,
                mid.2,
                w,
                h,
                limit,
                focus,
                i,
            );
        assert forall|j: int| 0 <= j < mid.0.len() implies {
            ||| #[trigger] mid.0[j] == counts0[j]
            ||| mid.0[j] == limit as u32
            ||| exists|x: i32, y: i32|
                {
                    &&& #[trigger] call_ensures(check, (x, y), mid.0[j])
                    &&& in_image(x as int, y as int, w, h)
                    &&& pixel_index(x as int, y as int, w) == j
                }
        } by {
            let blen = region.border_len();
            if is_border_target_upto(region, w, h, j, blen) {
                let bi = choose|bi: int|
                    {
                        &&& 0 <= bi < blen
                        &&& in_image(
                            (#[trigger] region.border_point(bi)).0,
                            region.border_point(bi).1,
                            w,
                            h,
                        )
                        &&& pixel_index(
                            region.border_point(bi).0,
                            region.border_point(bi).1,
                            w,
                        ) == j
                    };
                assert(mid.0[j] == rcounts[bi]);
                let x = (region.border_point(bi).0) as i32;
                let y = (region.border_point(bi).1) as i32;
                assert(x as int == region.border_point(bi).0);
                assert(y as int == region.border_point(bi).1);
                assert(call_ensures(check, (x, y), mid.0[j]));
            } else if border_none_escaped_upto(region, rcounts, w, h, limit, blen)
                && is_interior_target_upto(region, w, h, j, region.spec_interior_len()) {
                let ii = choose|ii: int|
                    {
                        &&& 0 <= ii < region.spec_interior_len()
                        &&& in_image(
                            (#[trigger] region.interior_seq()[ii]).0,
                            region.interior_seq()[ii].1,
                            w,
                            h,
                        )
                        &&& pixel_index(
                            region.interior_seq()[ii].0,
                            region.interior_seq()[ii].1,
                            w,
                        ) == j
                    };
                assert(mid.0[j] == limit as u32);
            } else {
                assert(mid.0[j] == counts0[j]);
            }
        }
    }
}

/// Whether the rectangle `inner` lies entirely within `outer`.
pub open spec fn rect_within(inner: RectRegion, outer: RectRegion) -> bool {
    &&& outer.x0 <= inner.x0
    &&& inner.x0 + inner.w <= outer.x0 + outer.w
    &&& outer.y0 <= inner.y0
    &&& inner.y0 + inner.h <= outer.y0 + outer.h
}

/// Every border position of a region names a pixel of that region.
proof fn lemma_border_point_in_region(r: RectRegion, bi: int)
    requires
        r.wf(),
        0 <= bi < r.border_len(),
    ensures
        crate::rect::region_contains(r, r.border_point(bi).0, r.border_point(bi).1),
{
}

/// Every interior position of a region names a pixel of that region.
proof fn lemma_interior_point_in_region(r: RectRegion, ii: int)
    requires
        r.wf(),
        0 <= ii < r.spec_interior_len(),
    ensures
        crate::rect::region_contains(r, r.interior_seq()[ii].0, r.interior_seq()[ii].1),
{
    let iw = r.interior_w();
    let ih = r.interior_h();
    assert(iw > 0 && ih > 0) by (nonlinear_arith)
        requires
            iw >= 0 && ih >= 0 && iw * ih > 0,
    ;
    assert(0 <= ii % iw < iw) by {
        vstd::arithmetic::div_mod::lemma_mod_bound(ii, iw);
    }
    assert(0 <= ii / iw < ih) by {
        vstd::arithmetic::div_mod::lemma_div_pos_is_pos(ii, iw);
        assert(ii <= (ih - 1) * iw + (iw - 1)) by (nonlinear_arith)
            requires
                0 <= ii < iw * ih && iw > 0 && ih > 0,
        ;
        vstd::arithmetic::div_mod::lemma_div_is_ordered(ii, (ih - 1) * iw + (iw - 1), iw);
        assert(((ih - 1) * iw + (iw - 1)) / iw == ih - 1) by {
            vstd::arithmetic::div_mod::lemma_hoist_over_denominator(iw - 1, ih - 1, iw as nat);
            assert((ih - 1) * iw == iw * (ih - 1)) by (nonlinear_arith);
            vstd::arithmetic::div_mod::lemma_basic_div(iw - 1, iw);
        }
    }
}

/// The trisection children lie within their parent.
proof fn lemma_trisect_children_within(region: RectRegion)
    requires
        region.wf(),
        region.spec_trisect() is Some,
    ensures
        ({
            let (r1, r2, r3) = region.spec_trisect()->0;
            rect_within(r1, region) && rect_within(r2, region) && rect_within(r3, region)
        }),
{
    let iw = region.interior_w();
    let ih = region.interior_h();
    assert(iw > 0 && ih > 0) by (nonlinear_arith)
        requires
            iw >= 0 && ih >= 0 && iw * ih > 0,
    ;
    if region.w >= region.h {
        let w1 = (region.w - 2) / 3;
        let w2 = ((region.w - 2) - w1) / 2;
        assert(w1 >= 0 && w1 <= region.w - 2) by {
            vstd::arithmetic::div_mod::lemma_div_pos_is_pos(region.w - 2, 3);
            vstd::arithmetic::div_mod::lemma_div_nonincreasing(region.w - 2, 3);
        }
        assert(w2 >= 0 && w2 <= (region.w - 2) - w1) by {
            vstd::arithmetic::div_mod::lemma_div_pos_is_pos((region.w - 2) - w1, 2);
            vstd::arithmetic::div_mod::lemma_div_nonincreasing((region.w - 2) - w1, 2);
        }
    } else {
        let h1 = (region.h - 2) / 3;
        let h2 = ((region.h - 2) - h1) / 2;
        assert(h1 >= 0 && h1 <= region.h - 2) by {
            vstd::arithmetic::div_mod::lemma_div_pos_is_pos(region.h - 2, 3);
            vstd::arithmetic::div_mod::lemma_div_nonincreasing(region.h - 2, 3);
        }
        assert(h2 >= 0 && h2 <= (region.h - 2) - h1) by {
            vstd::arithmetic::div_mod::lemma_div_pos_is_pos((region.h - 2) - h1, 2);
            vstd::arithmetic::div_mod::lemma_div_nonincreasing((region.h - 2) - h1, 2);
        }
    }
}

/// Whether every region of one queue lies within some region of another.
pub open spec fn heap_within(h1: Seq<ByDistToFocus>, h0: Seq<ByDistToFocus>) -> bool {
    forall|k: int|
        0 <= k < h1.len() ==> exists|l: int|
            0 <= l < h0.len() && rect_within((#[trigger] h1[k]).value, #[trigger] h0[l].value)
}

/// A run of the scheduler only ever writes inside the regions that were
/// queued when it started: every escape count that changed lies in one of
/// the initial dirty regions. Pixels outside every initial dirty region —
/// for example, the overlap kept by a pan, once the pan has queued only the
/// freshly exposed strips — are untouched by the whole run.
pub proof fn lemma_trace_writes_within(
    counts0: Seq<u32>,
    heap0: Seq<ByDistToFocus>,
    steps: Seq<(RectRegion, Seq<u32>)>,
    counts1: Seq<u32>,
    heap1: Seq<ByDistToFocus>,
    total: int,
    w: int,
    h: int,
    limit: int,
    focus: (usize, usize),
)
    requires
        scheduler_trace(counts0, heap0, steps, counts1, heap1, total, w, h, limit, focus),
        forall|k: int| 0 <= k < heap0.len() ==> (#[trigger] heap0[k]).value.wf(),
        0 < w,
    ensures
        counts1.len() == counts0.len(),
        forall|j: int|
            0 <= j < counts1.len() && #[trigger] counts1[j] != counts0[j] ==> exists|l: int|
                0 <= l < heap0.len() && crate::rect::region_contains(
                    #[trigger] heap0[l].value,
                    j % w,
                    j / w,
                ),
    decreases steps.len(),
{
    if steps.len() == 0 {
    } else {
        let mid = choose|mid: (Seq<u32>, Seq<ByDistToFocus>, int)|
            {
                &&& #[trigger] scheduler_step(
                    counts0,
                    heap0,
                    steps[0].0,
                    steps[0].1,
                    mid.0,
                    mid.1,
                    mid.2,
                    w,
                    h,
                    limit,
                    focus,
                )
                &&& mid.2 >= 0
                &&& scheduler_trace(
                    mid.0,
                    mid.1,
                    steps.drop_first(),
                    counts1,
                    heap1,
                    total - mid.2,
                    w,
                    h,
                    limit,
                    focus,
                )
            };
        let region = steps[0].0;
        let i = choose|i: int|
            #[trigger] scheduler_step_at(
                counts0,
                heap0,
                steps[0].0,
                steps[0].1,
                mid.0,
                mid.1,
                mid.2,
                w,
                h,
                limit,
                focus,
                i,
            );
        assert(region.wf());
        assert(forall|k: int| 0 <= k < mid.1.len() ==> (#[trigger] mid.1[k]).value.wf()) by {
            if region.spec_trisect() is Some {
                let (r1, r2, r3) = region.spec_trisect()->0;
                lemma_trisect_children_within(region);
            }
        }
        lemma_trace_writes_within(
            mid.0,
            mid.1,
            steps.drop_first(),
            counts1,
            heap1,
            total - mid.2,
            w,
            h,
            limit,
            focus,
        );
        assert(heap_within(mid.1, heap0)) by {
            assert forall|k: int| 0 <= k < mid.1.len() implies exists|l: int|
                0 <= l < heap0.len() && rect_within(
                    (#[trigger] mid.1[k]).value,
                    #[trigger] heap0[l].value,
                ) by {
                let removed = heap0.remove(i);
                if k < removed.len() {
                    let l = if k < i {
                        k
                    } else {
                        k + 1
                    };
                    assert(removed[k] == heap0[l]);
                    assert(rect_within(mid.1[k].value, heap0[l].value));
                } else {
                    lemma_trisect_children_within(region);
                    assert(rect_within(mid.1[k].value, heap0[i].value));
                }
            }
        }
        assert forall|j: int|
            0 <= j < counts1.len() && #[trigger] counts1[j] != counts0[j] implies exists|l: int|
            0 <= l < heap0.len() && crate::rect::region_contains(
                #[trigger] heap0[l].value,
                j % w,
                j / w,
            ) by {
            if counts1[j] != mid.0[j] {
                let l1 = choose|l1: int|
                    0 <= l1 < mid.1.len() && crate::rect::region_contains(
                        (#[trigger] mid.1[l1]).value,
                        j % w,
                        j / w,
                    );
                let l = choose|l: int|
                    0 <= l < heap0.len() && rect_within(
                        mid.1[l1].value,
                        (#[trigger] heap0[l]).value,
                    );
                assert(crate::rect::region_contains(heap0[l].value, j % w, j / w));
            } else {
                lemma_step_writes_within(counts0, heap0, steps[0].0, steps[0].1, mid.0, w, h, limit, focus, mid.1, mid.2, j);
            }
        }
    }
}

/// One step writes only inside the region it consumed.
proof fn lemma_step_writes_within(
    counts: Seq<u32>,
    heap: Seq<ByDistToFocus>,
    region: RectRegion,
    rcounts: Seq<u32>,
    counts2: Seq<u32>,
    w: int,
    h: int,
    limit: int,
    focus: (usize, usize),
    heap2: Seq<ByDistToFocus>,
    wk: int,
    j: int,
)
    requires
        scheduler_step(counts, heap, region, rcounts, counts2, heap2, wk, w, h, limit, focus),
        forall|k: int| 0 <= k < heap.len() ==> (#[trigger] heap[k]).value.wf(),
        0 <= j < counts.len(),
        counts2[j] != counts[j],
        0 < w,
    ensures
        exists|l: int|
            0 <= l < heap.len() && crate::rect::region_contains(
                #[trigger] heap[l].value,
                j % w,
                j / w,
            ),
{
    let i = choose|i: int|
        #[trigger] scheduler_step_at(
            counts,
            heap,
            region,
            rcounts,
            counts2,
            heap2,
            wk,
            w,
            h,
            limit,
            focus,
            i,
        );
    assert(region.wf());
    let blen = region.border_len();
    if is_border_target_upto(region, w, h, j, blen) {
        let bi = choose|bi: int|
            {
                &&& 0 <= bi < blen
                &&& in_image(
                    (#[trigger] region.border_point(bi)).0,
                    region.border_point(bi).1,
                    w,
                    h,
                )
                &&& pixel_index(region.border_point(bi).0, region.border_point(bi).1, w) == j
            };
        lemma_border_point_in_region(region, bi);
        let pt = region.border_point(bi);
        vstd::arithmetic::div_mod::lemma_fundamental_div_mod_converse_mod(j, w, pt.1, pt.0);
        vstd::arithmetic::div_mod::lemma_fundamental_div_mod_converse_div(j, w, pt.1, pt.0);
        assert(pt.1 * w + pt.0 == j) by (nonlinear_arith)
            requires
                pixel_index(pt.0, pt.1, w) == j,
        ;
        assert(crate::rect::region_contains(heap[i].value, j % w, j / w));
    } else if is_interior_target_upto(region, w, h, j, region.spec_interior_len()) {
        let ii = choose|ii: int|
            {
                &&& 0 <= ii < region.spec_interior_len()
                &&& in_image(
                    (#[trigger] region.interior_seq()[ii]).0,
                    region.interior_seq()[ii].1,
                    w,
                    h,
                )
                &&& pixel_index(region.interior_seq()[ii].0, region.interior_seq()[ii].1, w)
                    == j
            };
        lemma_interior_point_in_region(region, ii);
        let pt = region.interior_seq()[ii];
        vstd::arithmetic::div_mod::lemma_fundamental_div_mod_converse_mod(j, w, pt.1, pt.0);
        vstd::arithmetic::div_mod::lemma_fundamental_div_mod_converse_div(j, w, pt.1, pt.0);
        assert(pt.1 * w + pt.0 == j) by (nonlinear_arith)
            requires
                pixel_index(pt.0, pt.1, w) == j,
        ;
        assert(crate::rect::region_contains(heap[i].value, j % w, j / w));
    } else {
        assert(counts2[j] == counts[j]);
    }
}

/// A trace extends by one step at its end.
proof fn lemma_scheduler_trace_snoc(
    counts0: Seq<u32>,
    heap0: Seq<ByDistToFocus>,
    steps: Seq<(RectRegion, Seq<u32>)>,
    countsk: Seq<u32>,
    heapk: Seq<ByDistToFocus>,
    total: int,
    region: RectRegion,
    rcounts: Seq<u32>,
    counts1: Seq<u32>,
    heap1: Seq<ByDistToFocus>,
    wk: int,
    w: int,
    h: int,
    limit: int,
    focus: (usize, usize),
)
    requires
        scheduler_trace(counts0, heap0, steps, countsk, heapk, total, w, h, limit, focus),
        scheduler_step(countsk, heapk, region, rcounts, counts1, heap1, wk, w, h, limit, focus),
        wk >= 0,
    ensures
        scheduler_trace(
            counts0,
            heap0,
            steps.push((region, rcounts)),
            counts1,
            heap1,
            total + wk,
            w,
            h,
            limit,
            focus,
        ),
    decreases steps.len(),
{
    let steps1 = steps.push((region, rcounts));
    if steps.len() == 0 {
        assert(steps1[0] == (region, rcounts));
        assert(steps1.drop_first() =~= Seq::<(RectRegion, Seq<u32>)>::empty());
        let mid = (counts1, heap1, wk);
        assert(scheduler_step(
            counts0,
            heap0,
            steps1[0].0,
            steps1[0].1,
            mid.0,
            mid.1,
            mid.2,
            w,
            h,
            limit,
            focus,
        ));
        assert(scheduler_trace(
            mid.0,
            mid.1,
            steps1.drop_first(),
            counts1,
            heap1,
            (total + wk) - mid.2,
            w,
            h,
            limit,
            focus,
        ));
    } else {
        let mid = choose|mid: (Seq<u32>, Seq<ByDistToFocus>, int)|
            {
                &&& #[trigger] scheduler_step(
                    counts0,
                    heap0,
                    steps[0].0,
                    steps[0].1,
                    mid.0,
                    mid.1,
                    mid.2,
                    w,
                    h,
                    limit,
                    focus,
                )
                &&& mid.2 >= 0
                &&& scheduler_trace(
                    mid.0,
                    mid.1,
                    steps.drop_first(),
                    countsk,
                    heapk,
                    total - mid.2,
                    w,
                    h,
                    limit,
                    focus,
                )
            };
        lemma_scheduler_trace_snoc(
            mid.0,
            mid.1,
            steps.drop_first(),
            countsk,
            heapk,
            total - mid.2,
            region,
            rcounts,
            counts1,
            heap1,
            wk,
            w,
            h,
            limit,
            focus,
        );
        assert(steps1.drop_first() =~= steps.drop_first().push((region, rcounts)));
        assert(steps1[0] == steps[0]);
        assert(scheduler_step(
            counts0,
            heap0,
            steps1[0].0,
            steps1[0].1,
            mid.0,
            mid.1,
            mid.2,
            w,
            h,
            limit,
            focus,
        ));
        assert(scheduler_trace(
            mid.0,
            mid.1,
            steps1.drop_first(),
            counts1,
            heap1,
            (total + wk) - mid.2,
            w,
            h,
            limit,
            focus,
        ));
    }
}

/// The work of a step is never negative: it sums unsigned escape counts,
/// plus a rectangle area on the fill path.
proof fn lemma_border_work_sum_nonneg(
    region: RectRegion,
    counts: Seq<u32>,
    w: int,
    h: int,
    upto: int,
)
    ensures
        border_work_sum(region, counts, w, h, upto) >= 0,
    decreases upto,
{
    if upto > 0 {
        lemma_border_work_sum_nonneg(region, counts, w, h, upto - 1);
    }
}

/// The total pixel area of all queued regions; the part of the `compute`
/// termination measure that strictly shrinks whenever a nonempty region is
/// consumed.
pub open spec fn heap_area(s: Seq<ByDistToFocus>) -> int
    decreases s.len(),
{
    if s.len() == 0 {
        0
    } else {
        heap_area(s.drop_last()) + s.last().value.w * s.last().value.h
    }
}

/// A queue of regions with nonnegative dimensions has nonnegative area.
proof fn lemma_heap_area_nonneg(s: Seq<ByDistToFocus>)
    requires
        forall|i: int| 0 <= i < s.len() ==> (#[trigger] s[i]).value.w >= 0 && s[i].value.h >= 0,
    ensures
        heap_area(s) >= 0,
    decreases s.len(),
{
    if s.len() > 0 {
        lemma_heap_area_nonneg(s.drop_last());
        assert(s.last().value.w * s.last().value.h >= 0) by (nonlinear_arith)
            requires
                s.last().value.w >= 0 && s.last().value.h >= 0,
        ;
    }
}

/// Removing an entry removes exactly its area from the total.
proof fn lemma_heap_area_remove(s: Seq<ByDistToFocus>, i: int)
    requires
        0 <= i < s.len(),
    ensures
        heap_area(s.remove(i)) == heap_area(s) - s[i].value.w * s[i].value.h,
    decreases s.len(),
{
    if i == s.len() - 1 {
        assert(s.remove(i) =~= s.drop_last());
    } else {
        lemma_heap_area_remove(s.drop_last(), i);
        assert(s.remove(i).drop_last() =~= s.drop_last().remove(i));
        assert(s.remove(i).last() == s.last());
    }
}

/// Appending an entry adds exactly its area to the total.
proof fn lemma_heap_area_push(s: Seq<ByDistToFocus>, e: ByDistToFocus)
    ensures
        heap_area(s.push(e)) == heap_area(s) + e.value.w * e.value.h,
{
    assert(s.push(e).drop_last() =~= s);
    assert(s.push(e).last() == e);
}

/// The three trisection children together cover strictly less area than the
/// region they came from.
proof fn lemma_trisect_area(region: RectRegion)
    requires
        region.wf(),
        region.spec_trisect() is Some,
    ensures
        ({
            let (r1, r2, r3) = region.spec_trisect()->0;
            r1.w * r1.h + r2.w * r2.h + r3.w * r3.h < region.w * region.h
        }),
{
    let iw = region.interior_w();
    let ih = region.interior_h();
    assert(iw > 0 && ih > 0) by (nonlinear_arith)
        requires
            iw >= 0 && ih >= 0 && iw * ih > 0,
    ;
    if region.w >= region.h {
        let w1 = (region.w - 2) / 3;
        let w2 = ((region.w - 2) - w1) / 2;
        let w3 = (region.w - 2) - w1 - w2;
        assert(w1 >= 0 && w1 <= region.w - 2) by {
            vstd::arithmetic::div_mod::lemma_div_pos_is_pos(region.w - 2, 3);
            vstd::arithmetic::div_mod::lemma_div_nonincreasing(region.w - 2, 3);
        }
        assert(w2 >= 0 && w2 <= (region.w - 2) - w1) by {
            vstd::arithmetic::div_mod::lemma_div_pos_is_pos((region.w - 2) - w1, 2);
            vstd::arithmetic::div_mod::lemma_div_nonincreasing((region.w - 2) - w1, 2);
        }
        assert(w1 * (region.h - 2) + w2 * (region.h - 2) + w3 * (region.h - 2) < region.w
            * region.h) by (nonlinear_arith)
            requires
                w1 + w2 + w3 == region.w - 2 && region.w >= 3 && region.h >= 3,
        ;
    } else {
        let h1 = (region.h - 2) / 3;
        let h2 = ((region.h - 2) - h1) / 2;
        let h3 = (region.h - 2) - h1 - h2;
        assert(h1 >= 0 && h1 <= region.h - 2) by {
            vstd::arithmetic::div_mod::lemma_div_pos_is_pos(region.h - 2, 3);
            vstd::arithmetic::div_mod::lemma_div_nonincreasing(region.h - 2, 3);
        }
        assert(h2 >= 0 && h2 <= (region.h - 2) - h1) by {
            vstd::arithmetic::div_mod::lemma_div_pos_is_pos((region.h - 2) - h1, 2);
            vstd::arithmetic::div_mod::lemma_div_nonincreasing((region.h - 2) - h1, 2);
        }
        assert((region.w - 2) * h1 + (region.w - 2) * h2 + (region.w - 2) * h3 < region.w
            * region.h) by (nonlinear_arith)
            requires
                h1 + h2 + h3 == region.h - 2 && region.w >= 3 && region.h >= 3,
        ;
    }
}

/// The scheduler: image buffers, the queue of dirty regions, the focus
/// point that orders it, and the iteration cap.
#[derive(Debug)]
pub struct Engine {
    pub image: Image,
    pub dirty_regions: Vec<ByDistToFocus>,
    pub zoom_focus: (usize, usize),
    pub iteration_limit: usize,
}

impl Engine {
    /// A well-formed image, a focus within coordinate bounds, an iteration
    /// cap within bounds, and every queued region inside the image.
    pub open spec fn wf(self) -> bool {
        &&& self.image.wf()
        &&& self.zoom_focus.0 <= MAX_COORD
        &&& self.zoom_focus.1 <= MAX_COORD
        &&& self.iteration_limit <= MAX_ITERATION_LIMIT
        &&& forall|i: int|
            0 <= i < self.dirty_regions@.len() ==> region_in_image(
                #[trigger] self.dirty_regions@[i].value,
                self.image.width as int,
                self.image.height as int,
            )
    }

    /// Build an engine from the current settings: buffers sized to the
    /// canvas, the palette built from the gradient, and nothing dirty yet.
    /// The first `apply_settings` call enqueues whatever work the queued
    /// settings changes imply.
    pub fn new(settings: &EngineSettings) -> (e: Engine)
        requires
            settings.wf(),
        ensures
            e.wf(),
            e.image.width == settings.size.current.0,
            e.image.height == settings.size.current.1,
            e.image.palette.escape_values@ == spec_make_palette(
                settings.gradient.inner,
                settings.iteration_limit.current as int,
            ),
            e.image.palette.inside_color == settings.gradient.inner.inside,
            e.image.escape_counts@ =~= Seq::new(
                (settings.size.current.0 * settings.size.current.1) as nat,
                |i: int| 0u32,
            ),
            e.image.pixels@ =~= Seq::new(
                (4 * (settings.size.current.0 * settings.size.current.1)) as nat,
                |i: int| 0u8,
            ),
            e.dirty_regions@ =~= Seq::<ByDistToFocus>::empty(),
            e.zoom_focus == (0usize, 0usize),
            e.iteration_limit == settings.iteration_limit.current,
    {
        let width = settings.get_width();
        let height = settings.get_height();
        let limit = settings.get_iteration_limit();
        let palette = settings.get_gradient().make_palette(limit);
        Engine {
            image: Image::new(width, height, palette),
            dirty_regions: Vec::new(),
            zoom_focus: (0, 0),
            iteration_limit: limit,
        }
    }

    /// Drop all queued regions and enqueue the whole image as one dirty
    /// region, priced against the current focus.
    pub fn dirtify_all(&mut self)
        requires
            old(self).image.wf(),
            old(self).zoom_focus.0 <= MAX_COORD,
            old(self).zoom_focus.1 <= MAX_COORD,
            old(self).iteration_limit <= MAX_ITERATION_LIMIT,
        ensures
            final (self).wf(),
            final (self).image == old(self).image,
            final (self).zoom_focus == old(self).zoom_focus,
            final (self).iteration_limit == old(self).iteration_limit,
            final (self).dirty_regions@.len() == 1,
            final (self).dirty_regions@[0].value == (RectRegion {
                x0: 0,
                y0: 0,
                w: old(self).image.width as i32,
                h: old(self).image.height as i32,
            }),
            final (self).dirty_regions@[0].d == -final (self).dirty_regions@[0]
                .value.spec_squared_distance_to(
                old(self).zoom_focus.0 as int,
                old(self).zoom_focus.1 as int,
            ),
    {
        self.dirty_regions.clear();
        let region = RectRegion::new(0, 0, self.image.width as i32, self.image.height as i32);
        let entry = ByDistToFocus::of(region, self.zoom_focus);
        self.dirty_regions.push(entry);
    }

    /// Same as `dirtify_all`: forget all partial progress bookkeeping and
    /// recompute the whole image over the following `compute` calls.
    pub fn reset(&mut self)
        requires
            old(self).wf(),
        ensures
            final (self).wf(),
            final (self).image == old(self).image,
            final (self).zoom_focus == old(self).zoom_focus,
            final (self).iteration_limit == old(self).iteration_limit,
            final (self).dirty_regions@.len() == 1,
            final (self).dirty_regions@[0].value == (RectRegion {
                x0: 0,
                y0: 0,
                w: old(self).image.width as i32,
                h: old(self).image.height as i32,
            }),
            final (self).dirty_regions@[0].d == -final (self).dirty_regions@[0]
                .value.spec_squared_distance_to(
                old(self).zoom_focus.0 as int,
                old(self).zoom_focus.1 as int,
            ),
    {
        self.dirtify_all();
    }

    /// Render the current escape counts through the current palette; see
    /// `Image::render_pixels`.
    pub fn render(&mut self)
        requires
            old(self).wf(),
        ensures
            final (self).wf(),
            final (self).image.escape_counts == old(self).image.escape_counts,
            final (self).image.palette == old(self).image.palette,
            final (self).image.width == old(self).image.width,
            final (self).image.height == old(self).image.height,
            final (self).dirty_regions == old(self).dirty_regions,
            final (self).zoom_focus == old(self).zoom_focus,
            final (self).iteration_limit == old(self).iteration_limit,
            final (self).image.pixels@ =~= crate::image::rendered_pixels(
                old(self).image.escape_counts@,
                old(self).image.palette,
                old(self).iteration_limit as int,
            ),
    {
        self.image.render_pixels(self.iteration_limit);
    }

    /// The RGBA bytes of the last render pass.
    pub fn image_data(&self) -> (r: &[u8])
        ensures
            r@ == self.image.pixels@,
    {
        self.image.image_data()
    }

    /// Remove and return the most urgent dirty region: one whose stored
    /// priority is no worse than any other queued region's, the earliest
    /// enqueued among ties. Returns nothing when the queue is empty.
    pub fn pop_dirty(&mut self) -> (r: Option<RectRegion>)
        requires
            old(self).wf(),
        ensures
            final (self).wf(),
            final (self).image == old(self).image,
            final (self).zoom_focus == old(self).zoom_focus,
            final (self).iteration_limit == old(self).iteration_limit,
            r is None <==> old(self).dirty_regions@.len() == 0,
            r is None ==> final (self).dirty_regions == old(self).dirty_regions,
            r matches Some(reg) ==> exists|i: int|
                {
                    &&& 0 <= i < old(self).dirty_regions@.len()
                    &&& #[trigger] old(self).dirty_regions@[i].value == reg
                    &&& forall|j: int|
                        0 <= j < old(self).dirty_regions@.len() ==> #[trigger] old(self).dirty_regions@[j].d <= old(self).dirty_regions@[i].d
                    &&& forall|j: int|
                        0 <= j < i ==> #[trigger] old(self).dirty_regions@[j].d < old(self).dirty_regions@[i].d
                    &&& final (self).dirty_regions@ == old(self).dirty_regions@.remove(i)
                },
    {
        if self.dirty_regions.len() == 0 {
            return None;
        }
        let mut best: usize = 0;
        let mut k: usize = 1;
        while k < self.dirty_regions.len()
            invariant
                old(self).wf(),
                self == old(self),
                0 <= best < k <= self.dirty_regions@.len(),
                forall|j: int|
                    0 <= j < k ==> #[trigger] self.dirty_regions@[j].d
                        <= self.dirty_regions@[best as int].d,
                forall|j: int|
                    0 <= j < best ==> #[trigger] self.dirty_regions@[j].d
                        < self.dirty_regions@[best as int].d,
            decreases self.dirty_regions@.len() - k,
        {
            if self.dirty_regions[k].d > self.dirty_regions[best].d {
                best = k;
            }
            k = k + 1;
        }
        let entry = self.dirty_regions.remove(best);
        Some(entry.value)
    }

    /// Consume one dirty region, given the escape count computed for each of
    /// its border positions (out-of-image positions may carry any value;
    /// they are ignored). Every in-image border pixel receives its count. If
    /// none of those counts escaped, the whole interior is filled with the
    /// iteration cap without further computation; otherwise the region's
    /// interior is split into three sub-regions and re-enqueued, or dropped
    /// when it is too small to split. Returns the work done: the counts
    /// stored, plus the interior size on the fill path, saturating at
    /// `usize::MAX`.
    pub fn process_region(&mut self, region: RectRegion, counts: &Vec<u32>) -> (work: usize)
        requires
            old(self).wf(),
            region_in_image(
                region,
                old(self).image.width as int,
                old(self).image.height as int,
            ),
            counts@.len() == region.border_len(),
        ensures
            final (self).wf(),
            final (self).image.width == old(self).image.width,
            final (self).image.height == old(self).image.height,
            final (self).image.palette == old(self).image.palette,
            final (self).image.pixels == old(self).image.pixels,
            final (self).image.escape_counts@.len() == old(self).image.escape_counts@.len(),
            final (self).zoom_focus == old(self).zoom_focus,
            final (self).iteration_limit == old(self).iteration_limit,
            ({
                let w = old(self).image.width as int;
                let h = old(self).image.height as int;
                let limit = old(self).iteration_limit as int;
                let blen = region.border_len();
                let filled = border_none_escaped_upto(region, counts@, w, h, limit, blen);
                let bwork = border_work_sum(region, counts@, w, h, blen);
                &&& forall|bi: int|
                    0 <= bi < blen && in_image(
                        (#[trigger] region.border_point(bi)).0,
                        region.border_point(bi).1,
                        w,
                        h,
                    ) ==> final (self).image.escape_counts@[pixel_index(
                        region.border_point(bi).0,
                        region.border_point(bi).1,
                        w,
                    )] == counts@[bi]
                &&& filled ==> {
                    &&& forall|ii: int|
                        0 <= ii < region.spec_interior_len() && in_image(
                            (#[trigger] region.interior_seq()[ii]).0,
                            region.interior_seq()[ii].1,
                            w,
                            h,
                        ) ==> final (self).image.escape_counts@[pixel_index(
                            region.interior_seq()[ii].0,
                            region.interior_seq()[ii].1,
                            w,
                        )] == old(self).iteration_limit as u32
                    &&& forall|j: int|
                        0 <= j < old(self).image.escape_counts@.len()
                            && !is_border_target_upto(region, w, h, j, blen)
                            && !is_interior_target_upto(
                            region,
                            w,
                            h,
                            j,
                            region.spec_interior_len(),
                        ) ==> final (self).image.escape_counts@[j] == old(self).image.escape_counts@[j]
                    &&& final (self).dirty_regions == old(self).dirty_regions
                    &&& work == (if bwork + region.spec_interior_len() < usize::MAX {
                        bwork + region.spec_interior_len()
                    } else {
                        usize::MAX as int
                    })
                }
                &&& !filled ==> {
                    &&& forall|j: int|
                        0 <= j < old(self).image.escape_counts@.len()
                            && !is_border_target_upto(region, w, h, j, blen) ==> final (self).image.escape_counts@[j] == old(self).image.escape_counts@[j]
                    &&& work == (if bwork < usize::MAX {
                        bwork
                    } else {
                        usize::MAX as int
                    })
                    &&& region.spec_trisect() matches Some((r1, r2, r3)) ==> final (self).dirty_regions@ =~= old(self).dirty_regions@ + seq![
                        ByDistToFocus {
                            d: (-r1.spec_squared_distance_to(
                                old(self).zoom_focus.0 as int,
                                old(self).zoom_focus.1 as int,
                            )) as i64,
                            value: r1,
                        },
                        ByDistToFocus {
                            d: (-r2.spec_squared_distance_to(
                                old(self).zoom_focus.0 as int,
                                old(self).zoom_focus.1 as int,
                            )) as i64,
                            value: r2,
                        },
                        ByDistToFocus {
                            d: (-r3.spec_squared_distance_to(
                                old(self).zoom_focus.0 as int,
                                old(self).zoom_focus.1 as int,
                            )) as i64,
                            value: r3,
                        },
                    ]
                    &&& region.spec_trisect() is None ==> final (self).dirty_regions == old(self).dirty_regions
                }
            }),
    {
        let ghost w_int = self.image.width as int;
        let ghost h_int = self.image.height as int;
        let ghost limit_int = self.iteration_limit as int;
        let ghost old_counts = self.image.escape_counts@;
        let ghost blen = region.border_len();
        let width = self.image.width;
        let height = self.image.height;
        proof {
            lemma_border_points_distinct(region);
        }
        let mut none_escaped = true;
        let mut bwork: u64 = 0;
        let mut it = region.border();
        let mut bi: usize = 0;
        loop
            invariant
                self.image.width == width,
                self.image.height == height,
                w_int == width as int,
                h_int == height as int,
                limit_int == self.iteration_limit as int,
                self.image.wf(),
                self.iteration_limit <= MAX_ITERATION_LIMIT,
                region_in_image(region, w_int, h_int),
                counts@.len() == blen == region.border_len(),
                it.wf(),
                it.parent == &region,
                0 <= bi <= blen,
                it.i == bi,
                self.image.escape_counts@.len() == old_counts.len(),
                self.image.palette == old(self).image.palette,
                self.image.pixels == old(self).image.pixels,
                self.dirty_regions == old(self).dirty_regions,
                self.zoom_focus == old(self).zoom_focus,
                self.iteration_limit == old(self).iteration_limit,
                self.image.escape_counts@.len() == old(self).image.escape_counts@.len(),
                old_counts == old(self).image.escape_counts@,
                forall|k: int|
                    0 <= k < bi && in_image(
                        (#[trigger] region.border_point(k)).0,
                        region.border_point(k).1,
                        w_int,
                        h_int,
                    ) ==> self.image.escape_counts@[pixel_index(
                        region.border_point(k).0,
                        region.border_point(k).1,
                        w_int,
                    )] == counts@[k],
                forall|j: int|
                    0 <= j < old_counts.len() && !is_border_target_upto(
                        region,
                        w_int,
                        h_int,
                        j,
                        bi as int,
                    ) ==> self.image.escape_counts@[j] == old_counts[j],
                none_escaped == border_none_escaped_upto(
                    region,
                    counts@,
                    w_int,
                    h_int,
                    limit_int,
                    bi as int,
                ),
                bwork == border_work_sum(region, counts@, w_int, h_int, bi as int),
                bwork <= bi * 0xffff_ffffu64,
                forall|i: int, j: int|
                    0 <= i < j < region.border_len() ==> #[trigger] region.border_point(i)
                        != #[trigger] region.border_point(j),
            ensures
                bi == blen,
                self.image.width == width,
                self.image.height == height,
                self.image.wf(),
                self.image.escape_counts@.len() == old_counts.len(),
                self.image.palette == old(self).image.palette,
                self.image.pixels == old(self).image.pixels,
                self.dirty_regions == old(self).dirty_regions,
                self.zoom_focus == old(self).zoom_focus,
                self.iteration_limit == old(self).iteration_limit,
                forall|k: int|
                    0 <= k < blen && in_image(
                        (#[trigger] region.border_point(k)).0,
                        region.border_point(k).1,
                        w_int,
                        h_int,
                    ) ==> self.image.escape_counts@[pixel_index(
                        region.border_point(k).0,
                        region.border_point(k).1,
                        w_int,
                    )] == counts@[k],
                forall|j: int|
                    0 <= j < old_counts.len() && !is_border_target_upto(
                        region,
                        w_int,
                        h_int,
                        j,
                        blen,
                    ) ==> self.image.escape_counts@[j] == old_counts[j],
                none_escaped == border_none_escaped_upto(
                    region,
                    counts@,
                    w_int,
                    h_int,
                    limit_int,
                    blen,
                ),
                bwork == border_work_sum(region, counts@, w_int, h_int, blen),
                bwork <= blen * 0xffff_ffffu64,
            decreases blen - bi,
        {
            let p = match it.next() {
                Some(p) => p,
                None => {
                    break ;
                },
            };
            let (x, y) = p;
            let count = counts[bi];
            if x >= 0 && (x as i64) < (width as i64) && y >= 0 && (y as i64) < (height as i64) {
                proof {
                    lemma_pixel_index_bounds(x as int, y as int, w_int, h_int);
                    assert(w_int * h_int == self.image.escape_counts@.len());
                }
                let idx = (x as usize) + (y as usize) * width;
                let ghost before_set = self.image.escape_counts@;
                self.image.escape_counts.set(idx, count);
                if (count as usize) < self.iteration_limit {
                    none_escaped = false;
                }
                bwork = bwork + (count as u64);
                proof {
                    assert(self.image.escape_counts@ == before_set.update(idx as int, count));
                    assert((x as int, y as int) == region.border_point(bi as int));
                    assert(idx as int == pixel_index(
                        region.border_point(bi as int).0,
                        region.border_point(bi as int).1,
                        w_int,
                    ));
                    assert forall|j: int|
                        0 <= j < old_counts.len() && !is_border_target_upto(
                            region,
                            w_int,
                            h_int,
                            j,
                            bi + 1,
                        ) implies self.image.escape_counts@[j] == old_counts[j] by {
                        assert(!is_border_target_upto(region, w_int, h_int, j, bi as int));
                        assert(j != idx);
                    }
                    assert forall|k: int|
                        0 <= k < bi + 1 && in_image(
                            (#[trigger] region.border_point(k)).0,
                            region.border_point(k).1,
                            w_int,
                            h_int,
                        ) implies self.image.escape_counts@[pixel_index(
                        region.border_point(k).0,
                        region.border_point(k).1,
                        w_int,
                    )] == counts@[k] by {
                        if k < bi {
                            lemma_pixel_index_bounds(
                                region.border_point(k).0,
                                region.border_point(k).1,
                                w_int,
                                h_int,
                            );
                            assert(w_int * h_int == before_set.len());
                            assert(region.border_point(k) != region.border_point(bi as int));
                            if pixel_index(region.border_point(k).0, region.border_point(k).1, w_int)
                                == pixel_index(
                                region.border_point(bi as int).0,
                                region.border_point(bi as int).1,
                                w_int,
                            ) {
                                lemma_pixel_index_injective(
                                    region.border_point(k).0,
                                    region.border_point(k).1,
                                    region.border_point(bi as int).0,
                                    region.border_point(bi as int).1,
                                    w_int,
                                    h_int,
                                );
                            }
                            assert(pixel_index(
                                region.border_point(k).0,
                                region.border_point(k).1,
                                w_int,
                            ) != idx as int);
                            assert(before_set[pixel_index(
                                region.border_point(k).0,
                                region.border_point(k).1,
                                w_int,
                            )] == counts@[k]);
                        } else {
                            assert(k == bi as int);
                            assert(self.image.escape_counts@[idx as int] == count);
                        }
                    }
                    assert(bwork <= (bi + 1) * 0xffff_ffffu64) by (nonlinear_arith)
                        requires
                            bwork <= bi * 0xffff_ffffu64 + 0xffff_ffffu64,
                    ;
                }
            } else {
                proof {
                    assert forall|j: int|
                        0 <= j < old_counts.len() && !is_border_target_upto(
                            region,
                            w_int,
                            h_int,
                            j,
                            bi + 1,
                        ) implies self.image.escape_counts@[j] == old_counts[j] by {
                        assert(!is_border_target_upto(region, w_int, h_int, j, bi as int));
                    }
                    assert(bwork <= (bi + 1) * 0xffff_ffffu64) by (nonlinear_arith)
                        requires
                            bwork <= bi * 0xffff_ffffu64,
                    ;
                }
            }
            bi = bi + 1;
        }
        let ghost counts_after_border = self.image.escape_counts@;
        if none_escaped {
            proof {
                lemma_border_interior_disjoint(region);
                assert(region.interior_w() <= w_int && region.interior_h() <= h_int);
                assert(region.spec_interior_len() <= w_int * h_int) by (nonlinear_arith)
                    requires
                        0 <= region.interior_w() <= w_int && 0 <= region.interior_h() <= h_int,
                ;
            }
            let ilen = region.interior_len();
            let fill = self.iteration_limit as u32;
            let mut iit = region.interior();
            proof {
                assert(iit.points().len() == region.interior_seq().len());
            }
            let mut ii: usize = 0;
            loop
                invariant
                    self.image.width == width,
                    self.image.height == height,
                    w_int == width as int,
                    h_int == height as int,
                    self.image.wf(),
                    region_in_image(region, w_int, h_int),
                    iit.wf(),
                    iit.points() =~= region.interior_seq(),
                    iit.len == region.spec_interior_len(),
                    0 <= ii <= region.spec_interior_len(),
                    iit.i == ii,
                    fill == self.iteration_limit as u32,
                    self.image.escape_counts@.len() == counts_after_border.len(),
                    self.image.palette == old(self).image.palette,
                    self.image.pixels == old(self).image.pixels,
                    self.dirty_regions == old(self).dirty_regions,
                    self.zoom_focus == old(self).zoom_focus,
                    self.iteration_limit == old(self).iteration_limit,
                    forall|k: int|
                        0 <= k < ii && in_image(
                            (#[trigger] region.interior_seq()[k]).0,
                            region.interior_seq()[k].1,
                            w_int,
                            h_int,
                        ) ==> self.image.escape_counts@[pixel_index(
                            region.interior_seq()[k].0,
                            region.interior_seq()[k].1,
                            w_int,
                        )] == fill,
                    forall|j: int|
                        0 <= j < counts_after_border.len() && !is_interior_target_upto(
                            region,
                            w_int,
                            h_int,
                            j,
                            ii as int,
                        ) ==> self.image.escape_counts@[j] == counts_after_border[j],
                ensures
                    ii == region.spec_interior_len(),
                    self.image.width == width,
                    self.image.height == height,
                    self.image.wf(),
                    self.image.escape_counts@.len() == counts_after_border.len(),
                    self.image.palette == old(self).image.palette,
                    self.image.pixels == old(self).image.pixels,
                    self.dirty_regions == old(self).dirty_regions,
                    self.zoom_focus == old(self).zoom_focus,
                    self.iteration_limit == old(self).iteration_limit,
                    forall|k: int|
                        0 <= k < region.spec_interior_len() && in_image(
                            (#[trigger] region.interior_seq()[k]).0,
                            region.interior_seq()[k].1,
                            w_int,
                            h_int,
                        ) ==> self.image.escape_counts@[pixel_index(
                            region.interior_seq()[k].0,
                            region.interior_seq()[k].1,
                            w_int,
                        )] == fill,
                    forall|j: int|
                        0 <= j < counts_after_border.len() && !is_interior_target_upto(
                            region,
                            w_int,
                            h_int,
                            j,
                            region.spec_interior_len(),
                        ) ==> self.image.escape_counts@[j] == counts_after_border[j],
                decreases region.spec_interior_len() - ii,
            {
                let p = match iit.next() {
                    Some(p) => p,
                    None => {
                        break ;
                    },
                };
                let (x, y) = p;
                if x >= 0 && (x as i64) < (width as i64) && y >= 0 && (y as i64) < (height
                    as i64) {
                    proof {
                        lemma_pixel_index_bounds(x as int, y as int, w_int, h_int);
                    }
                    let idx = (x as usize) + (y as usize) * width;
                    let ghost before_set = self.image.escape_counts@;
                    self.image.escape_counts.set(idx, fill);
                    proof {
                        assert(self.image.escape_counts@ == before_set.update(idx as int, fill));
                        assert((x as int, y as int) == region.interior_seq()[ii as int]);
                        assert(idx as int == pixel_index(
                            region.interior_seq()[ii as int].0,
                            region.interior_seq()[ii as int].1,
                            w_int,
                        ));
                        assert forall|j: int|
                            0 <= j < counts_after_border.len() && !is_interior_target_upto(
                                region,
                                w_int,
                                h_int,
                                j,
                                ii + 1,
                            ) implies self.image.escape_counts@[j] == counts_after_border[j] by {
                            assert(!is_interior_target_upto(region, w_int, h_int, j, ii as int));
                            assert(j != idx);
                        }
                        assert forall|k: int|
                            0 <= k < ii + 1 && in_image(
                                (#[trigger] region.interior_seq()[k]).0,
                                region.interior_seq()[k].1,
                                w_int,
                                h_int,
                            ) implies self.image.escape_counts@[pixel_index(
                            region.interior_seq()[k].0,
                            region.interior_seq()[k].1,
                            w_int,
                        )] == fill by {
                            if k < ii {
                                lemma_pixel_index_bounds(
                                    region.interior_seq()[k].0,
                                    region.interior_seq()[k].1,
                                    w_int,
                                    h_int,
                                );
                                assert(w_int * h_int == before_set.len());
                                if pixel_index(
                                    region.interior_seq()[k].0,
                                    region.interior_seq()[k].1,
                                    w_int,
                                ) == pixel_index(
                                    region.interior_seq()[ii as int].0,
                                    region.interior_seq()[ii as int].1,
                                    w_int,
                                ) {
                                    lemma_pixel_index_injective(
                                        region.interior_seq()[k].0,
                                        region.interior_seq()[k].1,
                                        region.interior_seq()[ii as int].0,
                                        region.interior_seq()[ii as int].1,
                                        w_int,
                                        h_int,
                                    );
                                    let iw = region.interior_w();
                                    assert(iw > 0) by (nonlinear_arith)
                                        requires
                                            iw >= 0 && region.interior_h() >= 0 && iw
                                                * region.interior_h() > 0,
                                    ;
                                    assert(k % iw == (ii as int) % iw && k / iw == (ii as int)
                                        / iw);
                                    vstd::arithmetic::div_mod::lemma_fundamental_div_mod(k, iw);
                                    vstd::arithmetic::div_mod::lemma_fundamental_div_mod(
                                        ii as int,
                                        iw,
                                    );
                                }
                                assert(pixel_index(
                                    region.interior_seq()[k].0,
                                    region.interior_seq()[k].1,
                                    w_int,
                                ) != idx as int);
                                assert(before_set[pixel_index(
                                    region.interior_seq()[k].0,
                                    region.interior_seq()[k].1,
                                    w_int,
                                )] == fill);
                            } else {
                                assert(k == ii as int);
                                assert(self.image.escape_counts@[idx as int] == fill);
                            }
                        }
                    }
                } else {
                    proof {
                        assert forall|j: int|
                            0 <= j < counts_after_border.len() && !is_interior_target_upto(
                                region,
                                w_int,
                                h_int,
                                j,
                                ii + 1,
                            ) implies self.image.escape_counts@[j] == counts_after_border[j] by {
                            assert(!is_interior_target_upto(region, w_int, h_int, j, ii as int));
                        }
                    }
                }
                ii = ii + 1;
            }
            proof {
                assert forall|k: int|
                    0 <= k < blen && in_image(
                        (#[trigger] region.border_point(k)).0,
                        region.border_point(k).1,
                        w_int,
                        h_int,
                    ) implies self.image.escape_counts@[pixel_index(
                    region.border_point(k).0,
                    region.border_point(k).1,
                    w_int,
                )] == counts@[k] by {
                    let pt = region.border_point(k);
                    let j = pixel_index(pt.0, pt.1, w_int);
                    lemma_pixel_index_bounds(pt.0, pt.1, w_int, h_int);
                    assert(!is_interior_target_upto(
                        region,
                        w_int,
                        h_int,
                        j,
                        region.spec_interior_len(),
                    )) by {
                        if is_interior_target_upto(
                            region,
                            w_int,
                            h_int,
                            j,
                            region.spec_interior_len(),
                        ) {
                            let wit = choose|ix: int|
                                {
                                    &&& 0 <= ix < region.spec_interior_len()
                                    &&& in_image(
                                        (#[trigger] region.interior_seq()[ix]).0,
                                        region.interior_seq()[ix].1,
                                        w_int,
                                        h_int,
                                    )
                                    &&& pixel_index(
                                        region.interior_seq()[ix].0,
                                        region.interior_seq()[ix].1,
                                        w_int,
                                    ) == j
                                };
                            lemma_pixel_index_injective(
                                region.interior_seq()[wit].0,
                                region.interior_seq()[wit].1,
                                pt.0,
                                pt.1,
                                w_int,
                                h_int,
                            );
                        }
                    }
                }
            }
            let total: u64 = bwork + (ilen as u64);
            if total < usize::MAX as u64 {
                total as usize
            } else {
                usize::MAX
            }
        } else {
            match region.trisect() {
                Some((r1, r2, r3)) => {
                    let e1 = ByDistToFocus::of(r1, self.zoom_focus);
                    let e2 = ByDistToFocus::of(r2, self.zoom_focus);
                    let e3 = ByDistToFocus::of(r3, self.zoom_focus);
                    self.dirty_regions.push(e1);
                    self.dirty_regions.push(e2);
                    self.dirty_regions.push(e3);
                },
                None => {},
            }
            if bwork < usize::MAX as u64 {
                bwork as usize
            } else {
                usize::MAX
            }
        }
    }

    /// Replace the image with freshly zeroed buffers of a new size and a
    /// palette rebuilt from the gradient at the engine's current cap, reset
    /// the focus to the image center, and mark the whole image dirty.
    fn set_size(&mut self, width: usize, height: usize, gradient: &crate::gradient::Gradient)
        requires
            old(self).wf(),
            crate::settings::size_ok((width, height)),
            gradient.wf(),
        ensures
            final (self).wf(),
            final (self).image.width == width,
            final (self).image.height == height,
            final (self).image.palette.escape_values@ == spec_make_palette(
                *gradient,
                old(self).iteration_limit as int,
            ),
            final (self).image.palette.inside_color == gradient.inside,
            final (self).image.escape_counts@ =~= Seq::new(
                (width * height) as nat,
                |i: int| 0u32,
            ),
            final (self).image.pixels@ =~= Seq::new(
                (4 * (width * height)) as nat,
                |i: int| 0u8,
            ),
            final (self).zoom_focus == ((width / 2) as usize, (height / 2) as usize),
            final (self).iteration_limit == old(self).iteration_limit,
            final (self).dirty_regions@ =~= seq![
                spec_priced(
                    RectRegion { x0: 0, y0: 0, w: width as i32, h: height as i32 },
                    (width / 2) as int,
                    (height / 2) as int,
                ),
            ],
    {
        let palette = gradient.make_palette(self.iteration_limit);
        self.image = Image::new(width, height, palette);
        self.zoom_focus = (width / 2, height / 2);
        self.dirtify_all();
    }

    /// Shift the view by `(dx, dy)` pixels: recycle the escape counts that
    /// stay on screen, move the focus to the image center, re-price every
    /// queued region at its shifted position, and enqueue the two strips of
    /// freshly exposed pixels.
    pub fn pan(&mut self, dx: i32, dy: i32)
        requires
            old(self).wf(),
        ensures
            final (self).wf(),
            final (self).image.width == old(self).image.width,
            final (self).image.height == old(self).image.height,
            final (self).image.palette == old(self).image.palette,
            final (self).image.pixels == old(self).image.pixels,
            final (self).image.escape_counts@.len() == old(self).image.escape_counts@.len(),
            final (self).iteration_limit == old(self).iteration_limit,
            final (self).zoom_focus == (
                (old(self).image.width / 2) as usize,
                (old(self).image.height / 2) as usize,
            ),
            old(self).image.escape_counts@.len() > 0 ==> crate::image::panned_counts(
                old(self).image.escape_counts@,
                final (self).image.escape_counts@,
                spec_neg_sat(dx as int),
                spec_neg_sat(dy as int),
                old(self).image.width as int,
                old(self).image.height as int,
            ),
            final (self).dirty_regions@ =~= pan_heap(
                old(self).dirty_regions@,
                dx as int,
                dy as int,
                old(self).image.width as int,
                old(self).image.height as int,
            ),
    {
        let width = self.image.width;
        let height = self.image.height;
        let ghost w_int = width as int;
        let ghost h_int = height as int;
        self.zoom_focus = (width / 2, height / 2);
        let ndx: i32 = if dx == i32::MIN {
            i32::MAX
        } else {
            -dx
        };
        let ndy: i32 = if dy == i32::MIN {
            i32::MAX
        } else {
            -dy
        };
        self.image.pan(ndx, ndy);
        let ghost old_heap = self.dirty_regions@;
        let mut reheap: Vec<ByDistToFocus> = Vec::new();
        let mut k: usize = 0;
        while k < self.dirty_regions.len()
            invariant
                self.image.width == width,
                self.image.height == height,
                self.image.wf(),
                self.zoom_focus == ((width / 2) as usize, (height / 2) as usize),
                w_int == width as int,
                h_int == height as int,
                self.dirty_regions@ == old_heap,
                forall|i: int|
                    0 <= i < old_heap.len() ==> region_in_image(
                        (#[trigger] old_heap[i]).value,
                        w_int,
                        h_int,
                    ),
                0 <= k <= old_heap.len(),
                reheap@.len() == k,
                forall|i: int|
                    0 <= i < k ==> #[trigger] reheap@[i] == spec_priced(
                        spec_shift_clip(old_heap[i].value, dx as int, dy as int, w_int, h_int),
                        (width / 2) as int,
                        (height / 2) as int,
                    ),
                forall|i: int|
                    0 <= i < k ==> region_in_image((#[trigger] reheap@[i]).value, w_int, h_int),
            decreases old_heap.len() - k,
        {
            let e = self.dirty_regions[k];
            let entry = e.pan(dx, dy, &self.image);
            reheap.push(entry);
            k = k + 1;
        }
        self.dirty_regions = reheap;
        let vstrip = pan_vstrip(dx, width, height);
        let entry = ByDistToFocus::of(vstrip, self.zoom_focus);
        self.dirty_regions.push(entry);
        let hstrip = pan_hstrip(dx, dy, width, height);
        let entry = ByDistToFocus::of(hstrip, self.zoom_focus);
        self.dirty_regions.push(entry);
        proof {
            assert(final (self).dirty_regions@ =~= pan_heap(
                old_heap,
                dx as int,
                dy as int,
                w_int,
                h_int,
            ));
        }
    }

    /// Carry every queued settings change into the engine, in a fixed
    /// order. A new canvas size replaces the image whole and marks
    /// everything dirty. A new center together with an explicit focus is a
    /// click-zoom: the focus moves there. A focus change alone moves the
    /// focus, to the image center when the change cleared it. A center
    /// change alone is a pan; the caller translates it to a whole-pixel
    /// delta (`pan_hint`), or leaves the hint empty when the delta does not
    /// fit, in which case the pan is skipped and the engine is unchanged. A
    /// new scale marks everything dirty, as does a raised iteration cap,
    /// and a touched gradient rebuilds the palette at the latched cap.
    /// After the call every change is latched and the gradient is clean.
    #[verifier::rlimit(60)]
    pub fn apply_settings(&mut self, settings: &mut EngineSettings, pan_hint: Option<(i32, i32)>)
        requires
            old(self).wf(),
            old(settings).wf(),
        ensures
            final (self).wf(),
            final (settings).wf(),
            final (settings).size.current == old(settings).size.effective(),
            final (settings).size.next is None,
            final (settings).center.current == old(settings).center.effective(),
            final (settings).center.next is None,
            final (settings).scale.current == old(settings).scale.effective(),
            final (settings).scale.next is None,
            final (settings).iteration_limit.current == old(settings).iteration_limit.effective(),
            final (settings).iteration_limit.next is None,
            final (settings).zoom_focus.current == old(settings).zoom_focus.effective(),
            final (settings).zoom_focus.next is None,
            final (settings).gradient.inner == old(settings).gradient.inner,
            final (settings).gradient.dirty == false,
            if old(settings).size.next is Some {
                final (self).image.pixels@ =~= Seq::new(
                    (4 * (old(settings).size.effective().0 * old(settings).size.effective().1))
                        as nat,
                    |i: int| 0u8,
                )
            } else {
                final (self).image.pixels == old(self).image.pixels
            },
            final (self).iteration_limit == (match old(settings).iteration_limit.next {
                Some(n) => n,
                None => old(self).iteration_limit,
            }),
            final (self).image.width == (if old(settings).size.next is Some {
                old(settings).size.effective().0
            } else {
                old(self).image.width
            }),
            final (self).image.height == (if old(settings).size.next is Some {
                old(settings).size.effective().1
            } else {
                old(self).image.height
            }),
            ({
                let size_latched = old(settings).size.next is Some;
                let gradient_dirty = old(settings).gradient.dirty;
                let new_limit = old(settings).iteration_limit.effective() as int;
                if gradient_dirty {
                    final (self).image.palette.escape_values@ == spec_make_palette(
                        old(settings).gradient.inner,
                        new_limit,
                    ) && final (self).image.palette.inside_color == old(
                        settings,
                    ).gradient.inner.inside
                } else if size_latched {
                    final (self).image.palette.escape_values@ == spec_make_palette(
                        old(settings).gradient.inner,
                        old(self).iteration_limit as int,
                    ) && final (self).image.palette.inside_color == old(
                        settings,
                    ).gradient.inner.inside
                } else {
                    final (self).image.palette == old(self).image.palette
                }
            }),
            ({
                let size_latched = old(settings).size.next is Some;
                let wd = if size_latched {
                    old(settings).size.effective().0
                } else {
                    old(self).image.width
                };
                let hd = if size_latched {
                    old(settings).size.effective().1
                } else {
                    old(self).image.height
                };
                let center_latched = old(settings).center.next is Some;
                let zf_next = old(settings).zoom_focus.next;
                let click = center_latched && (zf_next matches Some(Some(_)));
                let focus_only = !center_latched && zf_next is Some;
                let pan_case = center_latched && !(zf_next matches Some(Some(_)));
                let f1 = if size_latched {
                    ((wd / 2) as usize, (hd / 2) as usize)
                } else {
                    old(self).zoom_focus
                };
                if click {
                    final (self).zoom_focus == zf_next->0->0
                } else if focus_only {
                    final (self).zoom_focus == (match zf_next->0 {
                        Some(f) => f,
                        None => ((wd / 2) as usize, (hd / 2) as usize),
                    })
                } else if pan_case && pan_hint is Some {
                    final (self).zoom_focus == ((wd / 2) as usize, (hd / 2) as usize)
                } else {
                    final (self).zoom_focus == f1
                }
            }),
            ({
                let size_latched = old(settings).size.next is Some;
                let center_latched = old(settings).center.next is Some;
                let zf_next = old(settings).zoom_focus.next;
                let pan_case = center_latched && !(zf_next matches Some(Some(_)));
                let pan_ran = pan_case && pan_hint is Some;
                let scale_latched = old(settings).scale.next is Some;
                let limit_raised = old(settings).iteration_limit.next matches Some(n) && n > old(
                    self,
                ).iteration_limit;
                if size_latched {
                    forall|j: int|
                        0 <= j < final (self).image.escape_counts@.len() ==> final (self).image.escape_counts@[j] == 0u32
                } else if pan_ran {
                    old(self).image.escape_counts@.len() > 0 ==> crate::image::panned_counts(
                        old(self).image.escape_counts@,
                        final (self).image.escape_counts@,
                        spec_neg_sat((pan_hint->0).0 as int),
                        spec_neg_sat((pan_hint->0).1 as int),
                        old(self).image.width as int,
                        old(self).image.height as int,
                    )
                } else {
                    final (self).image.escape_counts@ == old(self).image.escape_counts@
                }
            }),
            ({
                let size_latched = old(settings).size.next is Some;
                let wd = if size_latched {
                    old(settings).size.effective().0
                } else {
                    old(self).image.width
                };
                let hd = if size_latched {
                    old(settings).size.effective().1
                } else {
                    old(self).image.height
                };
                let center_latched = old(settings).center.next is Some;
                let zf_next = old(settings).zoom_focus.next;
                let pan_case = center_latched && !(zf_next matches Some(Some(_)));
                let pan_ran = pan_case && pan_hint is Some;
                let scale_latched = old(settings).scale.next is Some;
                let limit_raised = old(settings).iteration_limit.next matches Some(n) && n > old(
                    self,
                ).iteration_limit;
                let full = RectRegion { x0: 0, y0: 0, w: wd as i32, h: hd as i32 };
                if scale_latched || limit_raised {
                    final (self).dirty_regions@ =~= seq![
                        spec_priced(
                            full,
                            final (self).zoom_focus.0 as int,
                            final (self).zoom_focus.1 as int,
                        ),
                    ]
                } else {
                    let h1 = if size_latched {
                        seq![spec_priced(full, (wd / 2) as int, (hd / 2) as int)]
                    } else {
                        old(self).dirty_regions@
                    };
                    if pan_ran {
                        final (self).dirty_regions@ =~= pan_heap(
                            h1,
                            (pan_hint->0).0 as int,
                            (pan_hint->0).1 as int,
                            wd as int,
                            hd as int,
                        )
                    } else {
                        final (self).dirty_regions@ =~= h1
                    }
                }
            }),
    {
        if let Some((_, new_size)) = settings.size.latch() {
            let g = settings.gradient.get();
            self.set_size(new_size.0, new_size.1, g);
        }
        let center_latch = settings.center.latch();
        let zf_latch = settings.zoom_focus.latch();
        match (center_latch, zf_latch) {
            (Some(_), Some((_, Some(focus)))) => {
                self.zoom_focus = focus;
            },
            (None, Some((_, focus))) => {
                self.zoom_focus = match focus {
                    Some(f) => f,
                    None => (self.image.width / 2, self.image.height / 2),
                };
            },
            (Some(_), _) => {
                match pan_hint {
                    Some((dx, dy)) => {
                        self.pan(dx, dy);
                    },
                    None => {},
                }
            },
            (None, None) => {},
        }
        if let Some(_) = settings.scale.latch() {
            self.dirtify_all();
        }
        if let Some((_, new_limit)) = settings.iteration_limit.latch() {
            if new_limit > self.iteration_limit {
                self.dirtify_all();
            }
            self.iteration_limit = new_limit;
        }
        match settings.gradient.get_dirty() {
            Some(g) => {
                let limit = *settings.iteration_limit.current();
                self.image.palette = g.make_palette(limit);
            },
            None => {},
        }
        proof {
            if old(settings).size.next is Some {
                let cs = self.image.escape_counts@;
                let w = self.image.width as int;
                let len = cs.len() as int;
                let ndx = spec_neg_sat((pan_hint->0).0 as int);
                let ndy = spec_neg_sat((pan_hint->0).1 as int);
                assert forall|j: int| 0 <= j < cs.len() implies cs[j] == 0u32 by {
                    if len > 0 {
                        let di = (ndx + ndy * w) % len;
                        vstd::arithmetic::div_mod::lemma_mod_bound(ndx + ndy * w, len);
                        vstd::arithmetic::div_mod::lemma_mod_bound(j + len - di, len);
                    }
                }
            }
        }
    }

    /// Consume dirty regions, most urgent first, until the queue is empty or
    /// the work budget is exceeded. The escape count of each border pixel is
    /// computed by `check`, the caller's function from pixel coordinates to
    /// escape count. The whole run is a `scheduler_trace`: a sequence of
    /// `scheduler_step`s, each consuming the most urgent queued region
    /// exactly as `process_region` says, with every stored escape count
    /// satisfying `check`'s postcondition for its own border position
    /// (`steps_checked`). The returned work is the trace's total, saturating
    /// at `usize::MAX` only when the true total reaches it, so an
    /// unsaturated return within the budget means the queue was drained.
    /// See `lemma_trace_count_provenance` and `lemma_trace_writes_within`
    /// for what a trace implies about the escape-count buffer.
    #[verifier::rlimit(100)]
    pub fn compute<F: Fn(i32, i32) -> u32>(&mut self, work_limit: usize, check: F) -> (work:
        usize)
        requires
            old(self).wf(),
            forall|x: i32, y: i32| #[trigger] call_requires(check, (x, y)),
        ensures
            final (self).wf(),
            final (self).image.width == old(self).image.width,
            final (self).image.height == old(self).image.height,
            final (self).image.palette == old(self).image.palette,
            final (self).image.pixels == old(self).image.pixels,
            final (self).image.escape_counts@.len() == old(self).image.escape_counts@.len(),
            final (self).zoom_focus == old(self).zoom_focus,
            final (self).iteration_limit == old(self).iteration_limit,
            final (self).dirty_regions@.len() == 0 || work > work_limit || work == usize::MAX,
            old(self).dirty_regions@.len() == 0 ==> work == 0 && final (self).image == old(
                self,
            ).image && final (self).dirty_regions == old(self).dirty_regions,
            exists|steps: Seq<(RectRegion, Seq<u32>)>, tw: int|
                {
                    &&& #[trigger] scheduler_trace(
                        old(self).image.escape_counts@,
                        old(self).dirty_regions@,
                        steps,
                        final (self).image.escape_counts@,
                        final (self).dirty_regions@,
                        tw,
                        old(self).image.width as int,
                        old(self).image.height as int,
                        old(self).iteration_limit as int,
                        old(self).zoom_focus,
                    )
                    &&& tw >= 0
                    &&& steps_checked(check, steps)
                    &&& tw < usize::MAX ==> work == tw
                    &&& tw >= usize::MAX ==> work == usize::MAX
                    &&& tw <= work_limit ==> final (self).dirty_regions@.len() == 0
                },
    {
        let ghost counts0 = self.image.escape_counts@;
        let ghost heap0 = self.dirty_regions@;
        let ghost w_int = self.image.width as int;
        let ghost h_int = self.image.height as int;
        let ghost limit_int = self.iteration_limit as int;
        let ghost focus0 = self.zoom_focus;
        let ghost mut steps: Seq<(RectRegion, Seq<u32>)> = Seq::empty();
        let ghost mut tw: int = 0;
        let mut total: u64 = 0;
        loop
            invariant
                self.wf(),
                self.image.width == old(self).image.width,
                self.image.height == old(self).image.height,
                self.image.palette == old(self).image.palette,
                self.image.pixels == old(self).image.pixels,
                self.image.escape_counts@.len() == old(self).image.escape_counts@.len(),
                self.zoom_focus == old(self).zoom_focus,
                self.iteration_limit == old(self).iteration_limit,
                forall|x: i32, y: i32| #[trigger] call_requires(check, (x, y)),
                old(self).dirty_regions@.len() == 0 ==> total == 0 && self.image == old(
                    self,
                ).image && self.dirty_regions == old(self).dirty_regions,
                counts0 == old(self).image.escape_counts@,
                heap0 == old(self).dirty_regions@,
                w_int == old(self).image.width as int,
                h_int == old(self).image.height as int,
                limit_int == old(self).iteration_limit as int,
                focus0 == old(self).zoom_focus,
                scheduler_trace(
                    counts0,
                    heap0,
                    steps,
                    self.image.escape_counts@,
                    self.dirty_regions@,
                    tw,
                    w_int,
                    h_int,
                    limit_int,
                    focus0,
                ),
                tw >= 0,
                steps_checked(check, steps),
                total <= tw,
                tw < usize::MAX ==> total == tw,
                tw >= usize::MAX ==> total >= usize::MAX,
            ensures
                self.wf(),
                self.image.width == old(self).image.width,
                self.image.height == old(self).image.height,
                self.image.palette == old(self).image.palette,
                self.image.pixels == old(self).image.pixels,
                self.image.escape_counts@.len() == old(self).image.escape_counts@.len(),
                self.zoom_focus == old(self).zoom_focus,
                self.iteration_limit == old(self).iteration_limit,
                self.dirty_regions@.len() == 0 || total > work_limit as u64,
                old(self).dirty_regions@.len() == 0 ==> total == 0 && self.image == old(
                    self,
                ).image && self.dirty_regions == old(self).dirty_regions,
                scheduler_trace(
                    counts0,
                    heap0,
                    steps,
                    self.image.escape_counts@,
                    self.dirty_regions@,
                    tw,
                    w_int,
                    h_int,
                    limit_int,
                    focus0,
                ),
                tw >= 0,
                steps_checked(check, steps),
                total <= tw,
                tw < usize::MAX ==> total == tw,
                tw >= usize::MAX ==> total >= usize::MAX,
            decreases heap_area(self.dirty_regions@), self.dirty_regions@.len(),
        {
            proof {
                assert forall|i: int| 0 <= i < self.dirty_regions@.len() implies (
                #[trigger] self.dirty_regions@[i]).value.w >= 0 && self.dirty_regions@[i].value.h
                    >= 0 by {
                    assert(region_in_image(
                        self.dirty_regions@[i].value,
                        self.image.width as int,
                        self.image.height as int,
                    ));
                }
                lemma_heap_area_nonneg(self.dirty_regions@);
            }
            let ghost counts_before = self.image.escape_counts@;
            let ghost heap_before = self.dirty_regions@;
            let region = match self.pop_dirty() {
                Some(region) => region,
                None => {
                    break ;
                },
            };
            proof {
                let i = choose|i: int|
                    {
                        &&& 0 <= i < heap_before.len()
                        &&& #[trigger] heap_before[i].value == region
                        &&& forall|j: int|
                            0 <= j < heap_before.len() ==> #[trigger] heap_before[j].d
                                <= heap_before[i].d
                        &&& forall|j: int|
                            0 <= j < i ==> #[trigger] heap_before[j].d < heap_before[i].d
                        &&& self.dirty_regions@ == heap_before.remove(i)
                    };
                lemma_heap_area_remove(heap_before, i);
                assert(region.w * region.h >= 0) by (nonlinear_arith)
                    requires
                        region.w >= 0 && region.h >= 0,
                ;
                assert forall|k: int| 0 <= k < self.dirty_regions@.len() implies (
                #[trigger] self.dirty_regions@[k]).value.w >= 0 && self.dirty_regions@[k].value.h
                    >= 0 by {
                    assert(region_in_image(
                        self.dirty_regions@[k].value,
                        self.image.width as int,
                        self.image.height as int,
                    ));
                }
                lemma_heap_area_nonneg(self.dirty_regions@);
            }
            let ghost heap_popped = self.dirty_regions@;
            let ghost popped_area = region.w * region.h;
            let mut counts: Vec<u32> = Vec::new();
            let mut it = region.border();
            loop
                invariant
                    it.wf(),
                    it.parent == &region,
                    region.wf(),
                    0 <= it.i <= region.border_len(),
                    counts@.len() == it.i,
                    forall|x: i32, y: i32| #[trigger] call_requires(check, (x, y)),
                    forall|bi: int|
                        0 <= bi < counts@.len() ==> call_ensures(
                            check,
                            (
                                ((region.border_point(bi)).0) as i32,
                                ((region.border_point(bi)).1) as i32,
                            ),
                            #[trigger] counts@[bi],
                        ),
                ensures
                    counts@.len() == region.border_len(),
                    forall|bi: int|
                        0 <= bi < counts@.len() ==> call_ensures(
                            check,
                            (
                                ((region.border_point(bi)).0) as i32,
                                ((region.border_point(bi)).1) as i32,
                            ),
                            #[trigger] counts@[bi],
                        ),
                decreases region.border_len() - it.i,
            {
                let ghost bi = it.i as int;
                let p = match it.next() {
                    Some(p) => p,
                    None => {
                        break ;
                    },
                };
                let c = check(p.0, p.1);
                counts.push(c);
                proof {
                    assert((p.0 as int, p.1 as int) == region.border_point(bi));
                    assert(((region.border_point(bi)).0) as i32 == p.0);
                    assert(((region.border_point(bi)).1) as i32 == p.1);
                }
            }
            let region_work = self.process_region(region, &counts);
            proof {
                let blen = region.border_len();
                let filled = border_none_escaped_upto(
                    region,
                    counts@,
                    w_int,
                    h_int,
                    limit_int,
                    blen,
                );
                let bwork = border_work_sum(region, counts@, w_int, h_int, blen);
                let wk: int = bwork + if filled {
                    region.spec_interior_len()
                } else {
                    0
                };
                lemma_border_work_sum_nonneg(region, counts@, w_int, h_int, blen);
                assert(region.spec_interior_len() >= 0) by (nonlinear_arith)
                    requires
                        region.interior_w() >= 0 && region.interior_h() >= 0,
                ;
                let i = choose|i: int|
                    {
                        &&& 0 <= i < heap_before.len()
                        &&& #[trigger] heap_before[i].value == region
                        &&& forall|j: int|
                            0 <= j < heap_before.len() ==> #[trigger] heap_before[j].d
                                <= heap_before[i].d
                        &&& forall|j: int|
                            0 <= j < i ==> #[trigger] heap_before[j].d < heap_before[i].d
                        &&& heap_popped == heap_before.remove(i)
                    };
                assert(is_most_urgent(heap_before, i));
                assert(scheduler_step_at(
                    counts_before,
                    heap_before,
                    region,
                    counts@,
                    self.image.escape_counts@,
                    self.dirty_regions@,
                    wk,
                    w_int,
                    h_int,
                    limit_int,
                    focus0,
                    i,
                ));
                assert(scheduler_step(
                    counts_before,
                    heap_before,
                    region,
                    counts@,
                    self.image.escape_counts@,
                    self.dirty_regions@,
                    wk,
                    w_int,
                    h_int,
                    limit_int,
                    focus0,
                ));
                lemma_scheduler_trace_snoc(
                    counts0,
                    heap0,
                    steps,
                    counts_before,
                    heap_before,
                    tw,
                    region,
                    counts@,
                    self.image.escape_counts@,
                    self.dirty_regions@,
                    wk,
                    w_int,
                    h_int,
                    limit_int,
                    focus0,
                );
                let ghost steps1 = steps.push((region, counts@));
                assert(steps_checked(check, steps1)) by {
                    assert forall|k: int, bi: int|
                        0 <= k < steps1.len() && 0 <= bi < steps1[k].1.len() implies call_ensures(
                        check,
                        (
                            ((steps1[k].0.border_point(bi)).0) as i32,
                            ((steps1[k].0.border_point(bi)).1) as i32,
                        ),
                        #[trigger] steps1[k].1[bi],
                    ) by {
                        if k < steps.len() {
                            assert(steps1[k] == steps[k]);
                        } else {
                            assert(steps1[k] == (region, counts@));
                        }
                    }
                }
                assert(region_work == (if wk < usize::MAX {
                    wk
                } else {
                    usize::MAX as int
                }));
                steps = steps1;
                tw = tw + wk;
            }
            if total >= u64::MAX - (region_work as u64) {
                total = u64::MAX;
            } else {
                total = total + (region_work as u64);
            }
            if total > work_limit as u64 {
                break ;
            }
            proof {
                if region.spec_trisect() is Some && !border_none_escaped_upto(
                    region,
                    counts@,
                    self.image.width as int,
                    self.image.height as int,
                    self.iteration_limit as int,
                    region.border_len(),
                ) {
                    let (r1, r2, r3) = region.spec_trisect()->0;
                    let e1 = self.dirty_regions@[self.dirty_regions@.len() - 3];
                    let e2 = self.dirty_regions@[self.dirty_regions@.len() - 2];
                    let e3 = self.dirty_regions@[self.dirty_regions@.len() - 1];
                    assert(self.dirty_regions@ =~= heap_popped.push(e1).push(e2).push(e3));
                    lemma_heap_area_push(heap_popped, e1);
                    lemma_heap_area_push(heap_popped.push(e1), e2);
                    lemma_heap_area_push(heap_popped.push(e1).push(e2), e3);
                    lemma_trisect_area(region);
                    assert(heap_area(self.dirty_regions@) < heap_area(heap_before));
                } else {
                    assert(self.dirty_regions@ == heap_popped);
                    assert(heap_area(self.dirty_regions@) <= heap_area(heap_before));
                    if popped_area > 0 {
                        assert(heap_area(self.dirty_regions@) < heap_area(heap_before));
                    } else {
                        assert(self.dirty_regions@.len() < heap_before.len());
                    }
                }
            }
        }
        let work_result = if total < usize::MAX as u64 {
            total as usize
        } else {
            usize::MAX
        };
        proof {
            assert(scheduler_trace(
                old(self).image.escape_counts@,
                old(self).dirty_regions@,
                steps,
                self.image.escape_counts@,
                self.dirty_regions@,
                tw,
                old(self).image.width as int,
                old(self).image.height as int,
                old(self).iteration_limit as int,
                old(self).zoom_focus,
            ));
            if tw <= work_limit {
                assert(!(total > work_limit as u64));
                assert(self.dirty_regions@.len() == 0);
            }
        }
        work_result
    }
}

} // verus!
