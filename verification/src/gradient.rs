//! Piecewise-linear color gradients and the dense palettes built from them.
//!
//! A gradient is a list of pivots, each mapping an escape count to a color,
//! together with a distinguished `root` color for escape count zero and an
//! `inside` color for points that never escape. A palette is the dense
//! `escape count -> color` lookup table precomputed from a gradient.

use crate::color::lerp_color;
use crate::color::Color;
use vstd::prelude::*;

verus! {

/// Largest iteration cap the gradient and palette code accepts; keeps every
/// value comfortably inside `isize` and `u32` on all supported targets.
pub const MAX_ITERATION_LIMIT: usize = 0x7fff_ffff;

/// One gradient stop: the color shown at exactly `value` escape iterations.
#[derive(Clone, Copy, Debug, PartialEq, Eq, Structural)]
pub struct GradientPivot {
    pub value: usize,
    pub color: Color,
}

/// A piecewise-linear gradient with at least one pivot.
#[derive(Clone, Debug)]
pub struct Gradient {
    pub inside: Color,
    pub root: Color,
    pub pivots: Vec<GradientPivot>,
}

/// A dense `escape count -> color` lookup table.
#[derive(Debug)]
pub struct Palette {
    pub escape_values: Vec<Color>,
    pub inside_color: Color,
}

impl GradientPivot {
    /// Assemble a pivot.
    pub fn new(value: usize, color: Color) -> (p: GradientPivot)
        ensures
            p == (GradientPivot { value, color }),
    {
        GradientPivot { value, color }
    }

    /// The pivot halfway between two pivots: both the value and the color are
    /// the (rounded-down) arithmetic mean.
    pub fn average(&self, other: &Self) -> (p: GradientPivot)
        requires
            self.value <= MAX_ITERATION_LIMIT,
            other.value <= MAX_ITERATION_LIMIT,
        ensures
            p.value == (self.value + other.value) / 2,
            p.color == lerp_color(self.color, other.color, 0, 2, 1),
    {
        GradientPivot { value: (self.value + other.value) / 2, color: self.color.average(
            &other.color,
        ) }
    }
}

/// The interpolated segment leading up to pivot `p` from the previous value
/// and color: one color for each escape count in `prev_i .. p.value`, or
/// nothing when `p.value <= prev_i`.
pub open spec fn gradient_segment(prev_i: int, prev_color: Color, p: GradientPivot) -> Seq<Color> {
    Seq::new(
        if p.value > prev_i {
            (p.value - prev_i) as nat
        } else {
            0
        },
        |i: int| lerp_color(prev_color, p.color, prev_i, p.value as int, prev_i + i),
    )
}

/// The value the segment before pivot `k` starts from.
pub open spec fn segment_start_value(pivots: Seq<GradientPivot>, k: int) -> int {
    if k == 0 {
        0
    } else {
        pivots[k - 1].value as int
    }
}

/// The color the segment before pivot `k` starts from.
pub open spec fn segment_start_color(pivots: Seq<GradientPivot>, root: Color, k: int) -> Color {
    if k == 0 {
        root
    } else {
        pivots[k - 1].color
    }
}

/// All interpolated segments from pivot `k` onward, concatenated.
pub open spec fn gradient_segments_from(pivots: Seq<GradientPivot>, root: Color, k: int) -> Seq<
    Color,
>
    decreases pivots.len() - k,
{
    if 0 <= k < pivots.len() {
        gradient_segment(
            segment_start_value(pivots, k),
            segment_start_color(pivots, root, k),
            pivots[k],
        ) + gradient_segments_from(pivots, root, k + 1)
    } else {
        Seq::empty()
    }
}

/// The interpolated part of a palette: the root color followed by every
/// segment of the gradient.
pub open spec fn gradient_interp_seq(g: Gradient) -> Seq<Color> {
    seq![g.root] + gradient_segments_from(g.pivots@, g.root, 0)
}

/// The full palette table for iteration cap `max_value`: the interpolated
/// part, padded with the last pivot's color until it has more than
/// `max_value` entries.
pub open spec fn spec_make_palette(g: Gradient, max_value: int) -> Seq<Color> {
    let base = gradient_interp_seq(g);
    if base.len() > max_value {
        base
    } else {
        base + Seq::new(
            (max_value + 1 - base.len()) as nat,
            |i: int| g.pivots@.last().color,
        )
    }
}

/// The color a palette shows for a given escape count: the inside color at or
/// beyond the cap or beyond the table, else the table entry.
pub open spec fn spec_palette_color(p: Palette, escape_count: int, max_value: int) -> Color {
    if escape_count >= max_value {
        p.inside_color
    } else if escape_count < p.escape_values@.len() {
        p.escape_values@[escape_count]
    } else {
        p.inside_color
    }
}

impl Gradient {
    /// At least one pivot, and every pivot value within the iteration bound.
    pub open spec fn wf(self) -> bool {
        &&& self.pivots@.len() >= 1
        &&& forall|k: int|
            0 <= k < self.pivots@.len() ==> #[trigger] self.pivots@[k].value
                <= MAX_ITERATION_LIMIT
    }

    /// The pivot list, in order.
    pub fn get_pivots(&self) -> (r: &[GradientPivot])
        ensures
            r@ == self.pivots@,
    {
        self.pivots.as_slice()
    }

    /// The color used for points inside the set.
    pub fn get_inside_color(&self) -> (c: Color)
        ensures
            c == self.inside,
    {
        self.inside
    }

    /// Replace the color used for points inside the set.
    pub fn set_inside_color(&mut self, color: Color)
        ensures
            *final (self) == (Gradient { inside: color, ..*old(self) }),
    {
        self.inside = color;
    }

    /// Insert a new pivot after `index`: the arithmetic mean of the pivots at
    /// `index` and `index + 1`, or a duplicate of the last pivot when `index`
    /// names it. Out-of-range indices change nothing. Returns the pivot that
    /// was inserted.
    pub fn insert_pivot(&mut self, index: usize) -> (r: Option<GradientPivot>)
        requires
            old(self).wf(),
        ensures
            final (self).wf(),
            final (self).inside == old(self).inside,
            final (self).root == old(self).root,
            index >= old(self).pivots@.len() ==> {
                &&& r is None
                &&& final (self).pivots@ == old(self).pivots@
            },
            index == old(self).pivots@.len() - 1 ==> {
                &&& r == Some(old(self).pivots@.last())
                &&& final (self).pivots@ == old(self).pivots@.push(old(self).pivots@.last())
            },
            index < old(self).pivots@.len() - 1 ==> {
                &&& r matches Some(p)
                &&& p.value == (old(self).pivots@[index as int].value + old(self).pivots@[index
                    + 1].value) / 2
                &&& p.color == lerp_color(
                    old(self).pivots@[index as int].color,
                    old(self).pivots@[index + 1].color,
                    0,
                    2,
                    1,
                )
                &&& final (self).pivots@ == old(self).pivots@.insert(index + 1, p)
            },
    {
        let len = self.pivots.len();
        if index >= len {
            None
        } else if index == len - 1 {
            let p = self.pivots[len - 1];
            self.pivots.push(p);
            Some(p)
        } else {
            let before = self.pivots[index];
            let after = self.pivots[index + 1];
            let p = before.average(&after);
            self.pivots.insert(index + 1, p);
            Some(p)
        }
    }

    /// Remove the pivot at `index`. The last remaining pivot is never
    /// removed, and out-of-range indices change nothing.
    pub fn delete_pivot(&mut self, index: usize)
        requires
            old(self).wf(),
        ensures
            final (self).wf(),
            final (self).inside == old(self).inside,
            final (self).root == old(self).root,
            if index < old(self).pivots@.len() && old(self).pivots@.len() > 1 {
                final (self).pivots@ == old(self).pivots@.remove(index as int)
            } else {
                final (self).pivots@ == old(self).pivots@
            },
    {
        if index < self.pivots.len() && self.pivots.len() > 1 {
            self.pivots.remove(index);
        }
    }

    /// Move the pivot at `index` to `value`, clamped to `[0, max_value]` and
    /// then to the values of its neighbors, so that the pivot order is kept.
    /// Returns the value actually stored, or nothing for an out-of-range
    /// index.
    pub fn set_pivot_value(&mut self, index: usize, value: usize, max_value: usize) -> (r: Option<
        usize,
    >)
        requires
            old(self).wf(),
            max_value <= MAX_ITERATION_LIMIT,
        ensures
            final (self).wf(),
            final (self).inside == old(self).inside,
            final (self).root == old(self).root,
            index >= old(self).pivots@.len() ==> {
                &&& r is None
                &&& final (self).pivots@ == old(self).pivots@
            },
            index < old(self).pivots@.len() ==> {
                let clamped = spec_clamped_pivot_value(
                    old(self).pivots@,
                    index as int,
                    value as int,
                    max_value as int,
                );
                &&& r == Some(clamped as usize)
                &&& final (self).pivots@ == old(self).pivots@.update(
                    index as int,
                    GradientPivot {
                        value: clamped as usize,
                        color: old(self).pivots@[index as int].color,
                    },
                )
            },
    {
        let len = self.pivots.len();
        if index >= len {
            return None;
        }
        let mut v = if value <= max_value {
            value
        } else {
            max_value
        };
        if index > 0 {
            let prev = self.pivots[index - 1].value;
            if v < prev {
                v = prev;
            }
        }
        if index + 1 < len {
            let next = self.pivots[index + 1].value;
            if v > next {
                v = next;
            }
        }
        let color = self.pivots[index].color;
        self.pivots.set(index, GradientPivot { value: v, color });
        Some(v)
    }

    /// Replace the color of the pivot at `index`; reports whether the index
    /// was in range.
    pub fn set_pivot_color(&mut self, index: usize, color: Color) -> (r: bool)
        requires
            old(self).wf(),
        ensures
            final (self).wf(),
            final (self).inside == old(self).inside,
            final (self).root == old(self).root,
            r == (index < old(self).pivots@.len()),
            if index < old(self).pivots@.len() {
                final (self).pivots@ == old(self).pivots@.update(
                    index as int,
                    GradientPivot { value: old(self).pivots@[index as int].value, color },
                )
            } else {
                final (self).pivots@ == old(self).pivots@
            },
    {
        if index < self.pivots.len() {
            let value = self.pivots[index].value;
            self.pivots.set(index, GradientPivot { value, color });
            true
        } else {
            false
        }
    }

    /// Build the dense palette for iteration cap `max_value`; see
    /// `spec_make_palette`.
    pub fn make_palette(&self, max_value: usize) -> (p: Palette)
        requires
            self.wf(),
            max_value <= MAX_ITERATION_LIMIT,
        ensures
            p.escape_values@ == spec_make_palette(*self, max_value as int),
            p.inside_color == self.inside,
            p.escape_values@.len() > max_value,
    {
        let ghost g = *self;
        let mut values: Vec<Color> = Vec::new();
        values.push(self.root);
        let mut prev_i: usize = 0;
        let mut prev_color: Color = self.root;
        let mut k: usize = 0;
        proof {
            assert(values@ =~= seq![g.root]);
        }
        while k < self.pivots.len()
            invariant
                *self == g,
                g.wf(),
                0 <= k <= g.pivots@.len(),
                values@ + gradient_segments_from(g.pivots@, g.root, k as int)
                    =~= gradient_interp_seq(g),
                prev_i == segment_start_value(g.pivots@, k as int),
                prev_color == segment_start_color(g.pivots@, g.root, k as int),
                values@.len() >= 1,
            decreases g.pivots@.len() - k,
        {
            let pivot = self.pivots[k];
            let escape_count: usize = pivot.value;
            let color = pivot.color;
            let ghost values_before = values@;
            let mut i: usize = prev_i;
            while i < escape_count
                invariant
                    g.wf(),
                    k < g.pivots@.len(),
                    pivot == g.pivots@[k as int],
                    escape_count == pivot.value,
                    color == pivot.color,
                    prev_i == segment_start_value(g.pivots@, k as int),
                    prev_color == segment_start_color(g.pivots@, g.root, k as int),
                    prev_i <= i,
                    i <= escape_count || i == prev_i,
                    escape_count <= MAX_ITERATION_LIMIT,
                    values@ =~= values_before + gradient_segment(
                        prev_i as int,
                        prev_color,
                        pivot,
                    ).take(i - prev_i),
                decreases escape_count - i,
            {
                values.push(
                    Color::lerp(
                        &prev_color,
                        &color,
                        prev_i as isize,
                        escape_count as isize,
                        i as isize,
                    ),
                );
                proof {
                    let seg = gradient_segment(prev_i as int, prev_color, pivot);
                    assert(seg.take(i + 1 - prev_i) =~= seg.take(i - prev_i).push(
                        seg[i - prev_i],
                    ));
                }
                i = i + 1;
            }
            proof {
                assert(values@ =~= values_before + gradient_segment(
                    prev_i as int,
                    prev_color,
                    pivot,
                ));
            }
            prev_i = escape_count;
            prev_color = color;
            k = k + 1;
        }
        proof {
            assert(values@ =~= gradient_interp_seq(g));
        }
        let ghost base = values@;
        while values.len() <= max_value
            invariant
                *self == g,
                g.wf(),
                base =~= gradient_interp_seq(g),
                values@.len() >= 1,
                max_value <= MAX_ITERATION_LIMIT,
                if base.len() > max_value {
                    values@ =~= base
                } else {
                    base.len() <= values@.len() <= max_value + 1 && values@ =~= base + Seq::new(
                        (values@.len() - base.len()) as nat,
                        |i: int| g.pivots@.last().color,
                    )
                },
            decreases max_value + 1 - values@.len(),
        {
            let last = self.pivots[self.pivots.len() - 1].color;
            values.push(last);
            proof {
                assert(values@ =~= base + Seq::new(
                    (values@.len() - base.len()) as nat,
                    |i: int| g.pivots@.last().color,
                ));
            }
        }
        proof {
            assert(values@ =~= spec_make_palette(g, max_value as int));
        }
        Palette { escape_values: values, inside_color: self.inside }
    }
}

/// The stored value of `set_pivot_value`: the requested value clamped to
/// `[0, max_value]` and then to the neighboring pivot values.
pub open spec fn spec_clamped_pivot_value(
    pivots: Seq<GradientPivot>,
    index: int,
    value: int,
    max_value: int,
) -> int {
    let v0 = if value <= max_value {
        value
    } else {
        max_value
    };
    let v1 = if index > 0 && v0 < pivots[index - 1].value {
        pivots[index - 1].value as int
    } else {
        v0
    };
    if index + 1 < pivots.len() && v1 > pivots[index + 1].value {
        pivots[index + 1].value as int
    } else {
        v1
    }
}

/// A gradient all of whose colors are fully opaque.
pub open spec fn gradient_opaque(g: Gradient) -> bool {
    &&& g.inside.a == 255
    &&& g.root.a == 255
    &&& forall|k: int| 0 <= k < g.pivots@.len() ==> (#[trigger] g.pivots@[k]).color.a == 255
}

/// Interpolating a channel between two equal endpoints yields that
/// endpoint.
proof fn lemma_lerp_channel_same(a: u8, av: int, bv: int, tv: int)
    requires
        av < bv,
    ensures
        crate::color::lerp_channel(a, a, av, bv, tv) == a,
{
    vstd::arithmetic::div_mod::lemma_div_of0(bv - av);
}

/// Every color of the interpolated segments from pivot `k` on is opaque
/// when the gradient's colors are.
proof fn lemma_segments_opaque(pivots: Seq<GradientPivot>, root: Color, k: int)
    requires
        root.a == 255,
        forall|i: int| 0 <= i < pivots.len() ==> (#[trigger] pivots[i]).color.a == 255,
    ensures
        forall|i: int|
            0 <= i < gradient_segments_from(pivots, root, k).len() ==> (
            #[trigger] gradient_segments_from(pivots, root, k)[i]).a == 255,
    decreases pivots.len() - k,
{
    if 0 <= k < pivots.len() {
        let sv = segment_start_value(pivots, k);
        let sc = segment_start_color(pivots, root, k);
        let seg = gradient_segment(sv, sc, pivots[k]);
        assert forall|i: int| 0 <= i < seg.len() implies (#[trigger] seg[i]).a == 255 by {
            lemma_lerp_channel_same(255, sv, pivots[k].value as int, sv + i);
            assert(crate::color::lerp_channel(sc.a, pivots[k].color.a, sv, pivots[k].value as int, sv + i)
                == crate::color::lerp_channel(255, 255, sv, pivots[k].value as int, sv + i));
        }
        lemma_segments_opaque(pivots, root, k + 1);
        assert forall|i: int|
            0 <= i < gradient_segments_from(pivots, root, k).len() implies (
        #[trigger] gradient_segments_from(pivots, root, k)[i]).a == 255 by {
            if i < seg.len() {
                assert(gradient_segments_from(pivots, root, k)[i] == seg[i]);
            } else {
                assert(gradient_segments_from(pivots, root, k)[i] == gradient_segments_from(
                    pivots,
                    root,
                    k + 1,
                )[i - seg.len()]);
            }
        }
    }
}

/// Every color of a palette built from an opaque gradient is opaque — so a
/// render pass through it writes alpha 255 everywhere.
pub proof fn lemma_make_palette_opaque(g: Gradient, max_value: int)
    requires
        g.wf(),
        gradient_opaque(g),
    ensures
        forall|i: int|
            0 <= i < spec_make_palette(g, max_value).len() ==> (#[trigger] spec_make_palette(
                g,
                max_value,
            )[i]).a == 255,
{
    let base = gradient_interp_seq(g);
    lemma_segments_opaque(g.pivots@, g.root, 0);
    assert forall|i: int| 0 <= i < base.len() implies (#[trigger] base[i]).a == 255 by {
        if i == 0 {
        } else {
            assert(base[i] == gradient_segments_from(g.pivots@, g.root, 0)[i - 1]);
        }
    }
    assert(g.pivots@.last().color.a == 255);
}

impl Default for Gradient {
    /// A black-to-magenta gradient over the default iteration cap, black
    /// inside.
    fn default() -> (g: Gradient)
        ensures
            g.wf(),
            g.inside == (Color { r: 0, g: 0, b: 0, a: 255 }),
            g.root == (Color { r: 0, g: 0, b: 0, a: 255 }),
            g.pivots@ =~= seq![
                GradientPivot { value: 0, color: Color { r: 0, g: 0, b: 0, a: 255 } },
                GradientPivot { value: 50, color: Color { r: 255, g: 0, b: 255, a: 255 } },
            ],
    {
        let mut pivots: Vec<GradientPivot> = Vec::new();
        pivots.push(GradientPivot { value: 0, color: Color { r: 0, g: 0, b: 0, a: 255 } });
        pivots.push(GradientPivot { value: 50, color: Color { r: 255, g: 0, b: 255, a: 255 } });
        Gradient {
            inside: Color { r: 0, g: 0, b: 0, a: 255 },
            root: Color { r: 0, g: 0, b: 0, a: 255 },
            pivots,
        }
    }
}

impl Palette {
    /// Look up the color for an escape count; see `spec_palette_color`.
    pub fn get_color(&self, escape_count: usize, max_value: usize) -> (c: &Color)
        ensures
            *c == spec_palette_color(*self, escape_count as int, max_value as int),
    {
        if escape_count >= max_value {
            &self.inside_color
        } else if escape_count < self.escape_values.len() {
            &self.escape_values[escape_count]
        } else {
            &self.inside_color
        }
    }
}

} // verus!
