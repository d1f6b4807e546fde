//! The canonical, serializable viewport description that a UI mutates and
//! the engine consumes. Geometric fields are two-phase (`Ratchet`), so the
//! engine sees both the before and the after of each change; the gradient is
//! dirty-tracked (`Pristine`), so the palette is rebuilt only when needed.
//!
//! The view center and the scale are `f64` values owned by the caller; this
//! container stores their bit patterns as `u64`, which is all the engine's
//! integer logic and the serializer ever read.

use crate::color::Color;
use crate::complex::Complex;
use crate::gradient::Gradient;
use crate::gradient::GradientPivot;
use crate::gradient::MAX_ITERATION_LIMIT;
use crate::rect::MAX_DIM;
use crate::serial::b64_decode;
use crate::serial::b64_encode;
use crate::serial::b64_of;
use crate::serial::deflate;
use crate::serial::deflate_of;
use crate::serial::inflate;
use crate::serial::is_b64url_char;
use crate::utils::Pristine;
use crate::utils::Ratchet;
use vstd::bytes::spec_u64_from_le_bytes;
use vstd::bytes::spec_u64_to_le_bytes;
use vstd::bytes::u64_from_le_bytes;
use vstd::bytes::u64_to_le_bytes;
use vstd::prelude::*;
use vstd::slice::slice_subrange;

verus! {

/// The bit pattern of the default scale, `1/128` complex units per pixel.
pub const DEFAULT_SCALE_BITS: u64 = 0x3f80_0000_0000_0000;

/// The default iteration cap.
pub const DEFAULT_ITERATION_LIMIT: usize = 50;

/// The viewport: canvas size, view center and scale (as `f64` bit
/// patterns), iteration cap, click-zoom focus, and color gradient.
#[derive(Clone, Debug)]
pub struct EngineSettings {
    pub size: Ratchet<(usize, usize)>,
    pub center: Ratchet<Complex<u64>>,
    pub scale: Ratchet<u64>,
    pub iteration_limit: Ratchet<usize>,
    pub gradient: Pristine<Gradient>,
    pub zoom_focus: Ratchet<Option<(usize, usize)>>,
}

/// Dimensions small enough for the engine's region arithmetic.
pub open spec fn size_ok(wh: (usize, usize)) -> bool {
    &&& wh.0 <= MAX_DIM
    &&& wh.1 <= MAX_DIM
    &&& wh.0 * wh.1 <= i32::MAX
    &&& 4 * (wh.0 * wh.1) <= usize::MAX
}

/// A click-zoom focus within the engine's coordinate bounds.
pub open spec fn focus_ok(f: Option<(usize, usize)>) -> bool {
    f matches Some(xy) ==> xy.0 <= crate::rect::MAX_COORD && xy.1 <= crate::rect::MAX_COORD
}

impl EngineSettings {
    /// Sizes and iteration caps within the engine's bounds, in both the
    /// current and any queued value, and a well-formed gradient.
    pub open spec fn wf(self) -> bool {
        &&& size_ok(self.size.current)
        &&& self.size.next matches Some(wh) ==> size_ok(wh)
        &&& self.iteration_limit.current <= MAX_ITERATION_LIMIT
        &&& self.iteration_limit.next matches Some(n) ==> n <= MAX_ITERATION_LIMIT
        &&& self.gradient.inner.wf()
        &&& focus_ok(self.zoom_focus.current)
        &&& self.zoom_focus.next matches Some(f) ==> focus_ok(f)
    }

    /// The starting view: a one-pixel canvas, center at the origin, scale
    /// `1/128`, iteration cap 50, and the default gradient.
    pub fn new() -> (r: EngineSettings)
        ensures
            r.wf(),
            is_default_settings(r),
    {
        EngineSettings {
            size: Ratchet::new((1, 1)),
            center: Ratchet::new(Complex { re: 0, im: 0 }),
            scale: Ratchet::new(DEFAULT_SCALE_BITS),
            iteration_limit: Ratchet::new(DEFAULT_ITERATION_LIMIT),
            gradient: Pristine::new(Gradient::default()),
            zoom_focus: Ratchet::new(None),
        }
    }

    /// Current canvas width in pixels.
    pub fn get_width(&self) -> (r: usize)
        ensures
            r == self.size.current.0,
    {
        self.size.current().0
    }

    /// Current canvas height in pixels.
    pub fn get_height(&self) -> (r: usize)
        ensures
            r == self.size.current.1,
    {
        self.size.current().1
    }

    /// Current iteration cap.
    pub fn get_iteration_limit(&self) -> (r: usize)
        ensures
            r == self.iteration_limit.current,
    {
        *self.iteration_limit.current()
    }

    /// The current gradient.
    pub fn get_gradient(&self) -> (r: &Gradient)
        ensures
            r == &self.gradient.inner,
    {
        self.gradient.get()
    }

    /// Queue a new canvas size.
    pub fn set_size(self, width: usize, height: usize) -> (r: Self)
        requires
            self.wf(),
            size_ok((width, height)),
        ensures
            r.wf(),
            r == (EngineSettings {
                size: Ratchet { current: self.size.current, next: Some((width, height)) },
                ..self
            }),
    {
        let mut s = self;
        s.size.set((width, height));
        s
    }

    /// Queue a new iteration cap, and snap the last gradient pivot's value
    /// to it so the gradient always covers the whole range.
    pub fn set_iteration_limit(self, iteration_limit: usize) -> (r: Self)
        requires
            self.wf(),
            iteration_limit <= MAX_ITERATION_LIMIT,
        ensures
            r.wf(),
            r.size == self.size,
            r.center == self.center,
            r.scale == self.scale,
            r.zoom_focus == self.zoom_focus,
            r.iteration_limit == (Ratchet {
                current: self.iteration_limit.current,
                next: Some(iteration_limit),
            }),
            r.gradient.dirty == true,
            r.gradient.inner.inside == self.gradient.inner.inside,
            r.gradient.inner.root == self.gradient.inner.root,
            r.gradient.inner.pivots@ == self.gradient.inner.pivots@.update(
                self.gradient.inner.pivots@.len() - 1,
                GradientPivot {
                    value: iteration_limit,
                    color: self.gradient.inner.pivots@.last().color,
                },
            ),
    {
        let mut s = self;
        let g = s.gradient.get_mut();
        let last = g.pivots.len() - 1;
        let color = g.pivots[last].color;
        g.pivots.set(last, GradientPivot { value: iteration_limit, color });
        s.iteration_limit.set(iteration_limit);
        s
    }

    /// Move a gradient pivot to a new value, clamped to the iteration cap
    /// and its neighbors; see `Gradient::set_pivot_value`.
    pub fn gradient_set_pivot_value(self, index: usize, value: usize) -> (r: Self)
        requires
            self.wf(),
        ensures
            r.wf(),
            r.size == self.size,
            r.center == self.center,
            r.scale == self.scale,
            r.zoom_focus == self.zoom_focus,
            r.iteration_limit == self.iteration_limit,
            r.gradient.dirty == true,
            r.gradient.inner.inside == self.gradient.inner.inside,
            r.gradient.inner.root == self.gradient.inner.root,
            index < self.gradient.inner.pivots@.len() ==> r.gradient.inner.pivots@
                == self.gradient.inner.pivots@.update(
                index as int,
                GradientPivot {
                    value: crate::gradient::spec_clamped_pivot_value(
                        self.gradient.inner.pivots@,
                        index as int,
                        value as int,
                        self.iteration_limit.current as int,
                    ) as usize,
                    color: self.gradient.inner.pivots@[index as int].color,
                },
            ),
            index >= self.gradient.inner.pivots@.len() ==> r.gradient.inner.pivots@
                == self.gradient.inner.pivots@,
    {
        let mut s = self;
        let max_value = *s.iteration_limit.current();
        let g = s.gradient.get_mut();
        g.set_pivot_value(index, value, max_value);
        s
    }

    /// Recolor a gradient pivot from a `"#rrggbb"` string; malformed strings
    /// and out-of-range indices change nothing (though the gradient is still
    /// marked dirty).
    pub fn gradient_set_pivot_color(self, index: usize, color: &str) -> (r: Self)
        requires
            self.wf(),
        ensures
            r.wf(),
            r.size == self.size,
            r.center == self.center,
            r.scale == self.scale,
            r.zoom_focus == self.zoom_focus,
            r.iteration_limit == self.iteration_limit,
            r.gradient.dirty == true,
            r.gradient.inner.inside == self.gradient.inner.inside,
            r.gradient.inner.root == self.gradient.inner.root,
            if crate::color::spec_hex_color_ok(color@) && index
                < self.gradient.inner.pivots@.len() {
                r.gradient.inner.pivots@ == self.gradient.inner.pivots@.update(
                    index as int,
                    GradientPivot {
                        value: self.gradient.inner.pivots@[index as int].value,
                        color: crate::color::spec_parse_hex(color@),
                    },
                )
            } else {
                r.gradient.inner.pivots@ == self.gradient.inner.pivots@
            },
    {
        let mut s = self;
        let g = s.gradient.get_mut();
        match Color::parse_hex(color) {
            Some(c) => {
                g.set_pivot_color(index, c);
            },
            None => {},
        }
        s
    }

    /// Insert a gradient pivot after `index`; see `Gradient::insert_pivot`.
    pub fn gradient_insert_pivot(self, index: usize) -> (r: Self)
        requires
            self.wf(),
        ensures
            r.wf(),
            r.size == self.size,
            r.center == self.center,
            r.scale == self.scale,
            r.zoom_focus == self.zoom_focus,
            r.iteration_limit == self.iteration_limit,
            r.gradient.dirty == true,
            r.gradient.inner.inside == self.gradient.inner.inside,
            r.gradient.inner.root == self.gradient.inner.root,
            index >= self.gradient.inner.pivots@.len() ==> r.gradient.inner.pivots@
                == self.gradient.inner.pivots@,
            index == self.gradient.inner.pivots@.len() - 1 ==> r.gradient.inner.pivots@
                == self.gradient.inner.pivots@.push(self.gradient.inner.pivots@.last()),
            index < self.gradient.inner.pivots@.len() - 1 ==> r.gradient.inner.pivots@.len()
                == self.gradient.inner.pivots@.len() + 1,
    {
        let mut s = self;
        let g = s.gradient.get_mut();
        g.insert_pivot(index);
        s
    }

    /// Delete a gradient pivot; see `Gradient::delete_pivot`.
    pub fn gradient_delete_pivot(self, index: usize) -> (r: Self)
        requires
            self.wf(),
        ensures
            r.wf(),
            r.size == self.size,
            r.center == self.center,
            r.scale == self.scale,
            r.zoom_focus == self.zoom_focus,
            r.iteration_limit == self.iteration_limit,
            r.gradient.dirty == true,
            r.gradient.inner.inside == self.gradient.inner.inside,
            r.gradient.inner.root == self.gradient.inner.root,
            if index < self.gradient.inner.pivots@.len() && self.gradient.inner.pivots@.len()
                > 1 {
                r.gradient.inner.pivots@ == self.gradient.inner.pivots@.remove(index as int)
            } else {
                r.gradient.inner.pivots@ == self.gradient.inner.pivots@
            },
    {
        let mut s = self;
        let g = s.gradient.get_mut();
        g.delete_pivot(index);
        s
    }

    /// Recolor the inside-the-set color from a `"#rrggbb"` string; malformed
    /// strings change nothing (though the gradient is still marked dirty).
    pub fn gradient_set_inside_color(self, color: &str) -> (r: Self)
        requires
            self.wf(),
        ensures
            r.wf(),
            r.size == self.size,
            r.center == self.center,
            r.scale == self.scale,
            r.zoom_focus == self.zoom_focus,
            r.iteration_limit == self.iteration_limit,
            r.gradient.dirty == true,
            r.gradient.inner.root == self.gradient.inner.root,
            r.gradient.inner.pivots@ == self.gradient.inner.pivots@,
            if crate::color::spec_hex_color_ok(color@) {
                r.gradient.inner.inside == crate::color::spec_parse_hex(color@)
            } else {
                r.gradient.inner.inside == self.gradient.inner.inside
            },
    {
        let mut s = self;
        let g = s.gradient.get_mut();
        match Color::parse_hex(color) {
            Some(c) => {
                g.set_inside_color(c);
            },
            None => {},
        }
        s
    }
}

/// Whether a settings value is the starting view that `EngineSettings::new`
/// returns.
pub open spec fn is_default_settings(s: EngineSettings) -> bool {
    &&& s.size == (Ratchet { current: (1usize, 1usize), next: None::<(usize, usize)> })
    &&& s.center == (Ratchet { current: Complex { re: 0u64, im: 0u64 }, next: None::<
        Complex<u64>,
    > })
    &&& s.scale == (Ratchet { current: DEFAULT_SCALE_BITS, next: None::<u64> })
    &&& s.iteration_limit == (Ratchet { current: DEFAULT_ITERATION_LIMIT, next: None::<usize> })
    &&& s.gradient.dirty == true
    &&& s.gradient.inner.inside == (Color { r: 0, g: 0, b: 0, a: 255 })
    &&& s.gradient.inner.root == (Color { r: 0, g: 0, b: 0, a: 255 })
    &&& s.gradient.inner.pivots@ =~= seq![
        GradientPivot { value: 0usize, color: Color { r: 0, g: 0, b: 0, a: 255 } },
        GradientPivot { value: 50usize, color: Color { r: 255, g: 0, b: 255, a: 255 } },
    ]
    &&& s.zoom_focus == (Ratchet {
        current: None::<(usize, usize)>,
        next: None::<Option<(usize, usize)>>,
    })
}

impl Default for EngineSettings {
    /// Same as `EngineSettings::new`.
    fn default() -> (r: Self)
        ensures
            r.wf(),
            is_default_settings(r),
    {
        EngineSettings::new()
    }
}

/// The four bytes of a color, in `r, g, b, a` order.
pub open spec fn color_bytes(c: Color) -> Seq<u8> {
    seq![c.r, c.g, c.b, c.a]
}

/// The twelve bytes of one gradient pivot: the value as a little-endian
/// 64-bit integer, then the color.
pub open spec fn pivot_bytes(p: GradientPivot) -> Seq<u8> {
    spec_u64_to_le_bytes(p.value as u64) + color_bytes(p.color)
}

/// The bytes of all pivots from index `k` on, concatenated.
pub open spec fn pivots_bytes_from(ps: Seq<GradientPivot>, k: int) -> Seq<u8>
    decreases ps.len() - k,
{
    if 0 <= k < ps.len() {
        pivot_bytes(ps[k]) + pivots_bytes_from(ps, k + 1)
    } else {
        Seq::empty()
    }
}

/// The serialized byte form of a settings value: center (real then
/// imaginary bit pattern), scale bit pattern, iteration cap, then the
/// gradient as inside color, root color, pivot count and pivots, every
/// integer as 64 little-endian bits. The canvas size and the zoom focus are
/// not serialized.
pub open spec fn settings_bytes(s: EngineSettings) -> Seq<u8> {
    spec_u64_to_le_bytes(s.center.current.re) + spec_u64_to_le_bytes(s.center.current.im)
        + spec_u64_to_le_bytes(s.scale.current) + spec_u64_to_le_bytes(
        s.iteration_limit.current as u64,
    ) + color_bytes(s.gradient.inner.inside) + color_bytes(s.gradient.inner.root)
        + spec_u64_to_le_bytes(s.gradient.inner.pivots@.len() as u64) + pivots_bytes_from(
        s.gradient.inner.pivots@,
        0,
    )
}

/// The pivot count a byte form declares.
pub open spec fn parsed_pivot_count(b: Seq<u8>) -> int {
    spec_u64_from_le_bytes(b.subrange(40, 48)) as int
}

/// The declared value of pivot `k` in a byte form.
pub open spec fn parsed_pivot_value(b: Seq<u8>, k: int) -> u64 {
    spec_u64_from_le_bytes(b.subrange(48 + 12 * k, 56 + 12 * k))
}

/// The pivot at index `k` of a byte form.
pub open spec fn parsed_pivot(b: Seq<u8>, k: int) -> GradientPivot {
    GradientPivot {
        value: parsed_pivot_value(b, k) as usize,
        color: Color {
            r: b[56 + 12 * k],
            g: b[57 + 12 * k],
            b: b[58 + 12 * k],
            a: b[59 + 12 * k],
        },
    }
}

/// Whether a byte form parses: long enough for the fixed fields, an
/// iteration cap within bounds, at least one pivot, room for every declared
/// pivot, and every pivot value within bounds. Trailing bytes are ignored.
pub open spec fn parse_ok(b: Seq<u8>) -> bool {
    &&& b.len() >= 48
    &&& spec_u64_from_le_bytes(b.subrange(24, 32)) <= MAX_ITERATION_LIMIT
    &&& parsed_pivot_count(b) >= 1
    &&& parsed_pivot_count(b) <= (b.len() - 48) / 12
    &&& forall|k: int|
        0 <= k < parsed_pivot_count(b) ==> #[trigger] parsed_pivot_value(b, k)
            <= MAX_ITERATION_LIMIT
}

/// Whether a settings value is what parsing the byte form `b` yields: the
/// serialized fields from the bytes, everything else at its starting state.
pub open spec fn is_parsed_settings(b: Seq<u8>, v: EngineSettings) -> bool {
    &&& v.size == (Ratchet { current: (0usize, 0usize), next: None::<(usize, usize)> })
    &&& v.center.current.re == spec_u64_from_le_bytes(b.subrange(0, 8))
    &&& v.center.current.im == spec_u64_from_le_bytes(b.subrange(8, 16))
    &&& v.center.next is None
    &&& v.scale.current == spec_u64_from_le_bytes(b.subrange(16, 24))
    &&& v.scale.next is None
    &&& v.iteration_limit.current == spec_u64_from_le_bytes(b.subrange(24, 32))
    &&& v.iteration_limit.next is None
    &&& v.gradient.dirty == true
    &&& v.gradient.inner.inside == (Color {
        r: b[32],
        g: b[33],
        b: b[34],
        a: b[35],
    })
    &&& v.gradient.inner.root == (Color { r: b[36], g: b[37], b: b[38], a: b[39] })
    &&& v.gradient.inner.pivots@.len() == parsed_pivot_count(b)
    &&& forall|k: int|
        0 <= k < parsed_pivot_count(b) ==> #[trigger] v.gradient.inner.pivots@[k] == parsed_pivot(
            b,
            k,
        )
    &&& v.zoom_focus == (Ratchet {
        current: None::<(usize, usize)>,
        next: None::<Option<(usize, usize)>>,
    })
}

/// Whether `rv` is the settings value that restoring a serialization of `v`
/// yields: the serialized fields agree with `v`, and the unserialized ones
/// are at their starting state.
pub open spec fn restored_matches(rv: EngineSettings, v: EngineSettings) -> bool {
    &&& rv.size == (Ratchet { current: (0usize, 0usize), next: None::<(usize, usize)> })
    &&& rv.center.current == v.center.current
    &&& rv.center.next is None
    &&& rv.scale.current == v.scale.current
    &&& rv.scale.next is None
    &&& rv.iteration_limit.current == v.iteration_limit.current
    &&& rv.iteration_limit.next is None
    &&& rv.gradient.dirty == true
    &&& rv.gradient.inner.inside == v.gradient.inner.inside
    &&& rv.gradient.inner.root == v.gradient.inner.root
    &&& rv.gradient.inner.pivots@ =~= v.gradient.inner.pivots@
    &&& rv.zoom_focus == (Ratchet {
        current: None::<(usize, usize)>,
        next: None::<Option<(usize, usize)>>,
    })
}

/// The serialized string form of a settings value: the version prefix, then
/// the URL-safe base64 of the zlib stream of the byte form.
pub open spec fn spec_serialized_str(v: EngineSettings) -> Seq<char> {
    seq!['0', ':'] + b64_of(deflate_of(settings_bytes(v)))
}

/// The byte forms of the pivots from `k` on take twelve bytes each.
proof fn lemma_pivots_bytes_from_len(ps: Seq<GradientPivot>, k: int)
    requires
        0 <= k <= ps.len(),
    ensures
        pivots_bytes_from(ps, k).len() == 12 * (ps.len() - k),
    decreases ps.len() - k,
{
    vstd::bytes::lemma_auto_spec_u64_to_from_le_bytes();
    if k < ps.len() {
        lemma_pivots_bytes_from_len(ps, k + 1);
    }
}

/// Within the concatenated pivot bytes, pivot `j` sits twelve bytes per
/// pivot after the start.
proof fn lemma_pivots_bytes_from_at(ps: Seq<GradientPivot>, k: int, j: int)
    requires
        0 <= k <= j < ps.len(),
    ensures
        pivots_bytes_from(ps, k).subrange(12 * (j - k), 12 * (j - k) + 12) =~= pivot_bytes(
            ps[j],
        ),
    decreases j - k,
{
    vstd::bytes::lemma_auto_spec_u64_to_from_le_bytes();
    lemma_pivots_bytes_from_len(ps, k);
    if k < j {
        lemma_pivots_bytes_from_at(ps, k + 1, j);
        lemma_pivots_bytes_from_len(ps, k + 1);
        assert(pivots_bytes_from(ps, k).subrange(12 * (j - k), 12 * (j - k) + 12)
            =~= pivots_bytes_from(ps, k + 1).subrange(12 * (j - k - 1), 12 * (j - k - 1) + 12));
    } else {
        assert(pivots_bytes_from(ps, k).subrange(0, 12) =~= pivot_bytes(ps[k]));
    }
}

/// Parsing the byte form of a well-formed settings value succeeds and
/// recovers exactly the serialized fields. This is the byte-level half of
/// the serialization round trip; the outer base64 and zlib layers invert
/// each other by the contracts of their wrappers.
pub proof fn lemma_settings_bytes_round_trip(v: EngineSettings)
    requires
        v.wf(),
    ensures
        parse_ok(settings_bytes(v)),
        forall|rv: EngineSettings|
            is_parsed_settings(settings_bytes(v), rv) ==> #[trigger] restored_matches(rv, v),
{
    let b = settings_bytes(v);
    let ps = v.gradient.inner.pivots@;
    vstd::bytes::lemma_auto_spec_u64_to_from_le_bytes();
    vstd::std_specs::vec::axiom_spec_len(&v.gradient.inner.pivots);
    lemma_pivots_bytes_from_len(ps, 0);
    let p1 = spec_u64_to_le_bytes(v.center.current.re);
    let p2 = spec_u64_to_le_bytes(v.center.current.im);
    let p3 = spec_u64_to_le_bytes(v.scale.current);
    let p4 = spec_u64_to_le_bytes(v.iteration_limit.current as u64);
    let p5 = color_bytes(v.gradient.inner.inside);
    let p6 = color_bytes(v.gradient.inner.root);
    let p7 = spec_u64_to_le_bytes(ps.len() as u64);
    let p8 = pivots_bytes_from(ps, 0);
    assert(p1.len() == 8 && p2.len() == 8 && p3.len() == 8 && p4.len() == 8);
    assert(p5.len() == 4 && p6.len() == 4 && p7.len() == 8);
    assert(b == p1 + p2 + p3 + p4 + p5 + p6 + p7 + p8);
    assert(b.len() == 48 + 12 * ps.len());
    assert(b.subrange(0, 8) =~= p1);
    assert(b.subrange(8, 16) =~= p2);
    assert(b.subrange(16, 24) =~= p3);
    assert(b.subrange(24, 32) =~= p4);
    assert(b.subrange(40, 48) =~= p7);
    assert(spec_u64_from_le_bytes(p7) == ps.len() as u64);
    assert(parsed_pivot_count(b) == ps.len());
    assert((b.len() - 48) / 12 == ps.len()) by {
        vstd::arithmetic::div_mod::lemma_div_by_multiple(ps.len() as int, 12);
    }
    assert forall|k: int| 0 <= k < ps.len() implies {
        &&& #[trigger] parsed_pivot_value(b, k) == ps[k].value as u64
        &&& parsed_pivot(b, k) == ps[k]
    } by {
        lemma_pivots_bytes_from_at(ps, 0, k);
        let tail = pivots_bytes_from(ps, 0);
        assert(b.subrange(48 + 12 * k, 56 + 12 * k) =~= tail.subrange(12 * k, 12 * k + 12
        ).subrange(0, 8));
        assert(tail.subrange(12 * k, 12 * k + 12).subrange(0, 8) =~= spec_u64_to_le_bytes(
            ps[k].value as u64,
        ));
        assert(b[56 + 12 * k] == tail.subrange(12 * k, 12 * k + 12)[8]);
        assert(b[57 + 12 * k] == tail.subrange(12 * k, 12 * k + 12)[9]);
        assert(b[58 + 12 * k] == tail.subrange(12 * k, 12 * k + 12)[10]);
        assert(b[59 + 12 * k] == tail.subrange(12 * k, 12 * k + 12)[11]);
    }
    assert(b[32] == v.gradient.inner.inside.r);
    assert(b[33] == v.gradient.inner.inside.g);
    assert(b[34] == v.gradient.inner.inside.b);
    assert(b[35] == v.gradient.inner.inside.a);
    assert(b[36] == v.gradient.inner.root.r);
    assert(b[37] == v.gradient.inner.root.g);
    assert(b[38] == v.gradient.inner.root.b);
    assert(b[39] == v.gradient.inner.root.a);
    assert forall|rv: EngineSettings| is_parsed_settings(b, rv) implies #[trigger] restored_matches(
        rv,
        v,
    ) by {
        assert(rv.gradient.inner.pivots@ =~= ps);
    }
}

impl EngineSettings {
    /// The serialized byte form; see `settings_bytes`.
    pub fn serialize_bytes(&self) -> (r: Vec<u8>)
        requires
            self.wf(),
        ensures
            r@ =~= settings_bytes(*self),
    {
        let ghost target = settings_bytes(*self);
        let mut out = u64_to_le_bytes(self.center.current().re);
        let mut part = u64_to_le_bytes(self.center.current().im);
        out.append(&mut part);
        let mut part = u64_to_le_bytes(*self.scale.current());
        out.append(&mut part);
        let mut part = u64_to_le_bytes(*self.iteration_limit.current() as u64);
        out.append(&mut part);
        let g = self.gradient.get();
        out.push(g.inside.r);
        out.push(g.inside.g);
        out.push(g.inside.b);
        out.push(g.inside.a);
        out.push(g.root.r);
        out.push(g.root.g);
        out.push(g.root.b);
        out.push(g.root.a);
        let mut part = u64_to_le_bytes(g.pivots.len() as u64);
        out.append(&mut part);
        let ghost ps = g.pivots@;
        let ghost head = out@;
        proof {
            assert(head + pivots_bytes_from(ps, 0) =~= target);
        }
        let mut k: usize = 0;
        while k < g.pivots.len()
            invariant
                g == &self.gradient.inner,
                ps == g.pivots@,
                0 <= k <= ps.len(),
                out@ + pivots_bytes_from(ps, k as int) =~= target,
            decreases ps.len() - k,
        {
            let p = g.pivots[k];
            let mut part = u64_to_le_bytes(p.value as u64);
            out.append(&mut part);
            out.push(p.color.r);
            out.push(p.color.g);
            out.push(p.color.b);
            out.push(p.color.a);
            proof {
                assert(out@ + pivots_bytes_from(ps, k + 1) =~= target);
            }
            k = k + 1;
        }
        out
    }

    /// Parse a serialized byte form; succeeds exactly on the forms
    /// `parse_ok` accepts, and then yields the settings the bytes describe,
    /// with the canvas size and zoom focus at their starting state.
    pub fn parse_bytes(bytes: &Vec<u8>) -> (r: Option<EngineSettings>)
        ensures
            r is Some <==> parse_ok(bytes@),
            r matches Some(v) ==> is_parsed_settings(bytes@, v) && v.wf(),
    {
        if bytes.len() < 48 {
            return None;
        }
        let b = bytes.as_slice();
        let re = u64_from_le_bytes(slice_subrange(b, 0, 8));
        let im = u64_from_le_bytes(slice_subrange(b, 8, 16));
        let scale = u64_from_le_bytes(slice_subrange(b, 16, 24));
        let limit = u64_from_le_bytes(slice_subrange(b, 24, 32));
        if limit > MAX_ITERATION_LIMIT as u64 {
            return None;
        }
        let inside = Color { r: bytes[32], g: bytes[33], b: bytes[34], a: bytes[35] };
        let root = Color { r: bytes[36], g: bytes[37], b: bytes[38], a: bytes[39] };
        let count = u64_from_le_bytes(slice_subrange(b, 40, 48));
        if count == 0 || count > ((bytes.len() - 48) / 12) as u64 {
            return None;
        }
        let n = count as usize;
        proof {
            assert(48 + 12 * (n as int) <= bytes@.len()) by {
                assert(12 * ((bytes@.len() - 48) / 12) <= bytes@.len() - 48) by {
                    vstd::arithmetic::div_mod::lemma_fundamental_div_mod(bytes@.len() - 48, 12);
                    vstd::arithmetic::div_mod::lemma_mod_bound(bytes@.len() - 48, 12);
                }
                assert(12 * (n as int) <= 12 * ((bytes@.len() - 48) / 12)) by (nonlinear_arith)
                    requires
                        n as int <= (bytes@.len() - 48) / 12,
                ;
            }
        }
        let mut pivots: Vec<GradientPivot> = Vec::new();
        let mut k: usize = 0;
        while k < n
            invariant
                b@ == bytes@,
                bytes@.len() >= 48,
                bytes@.len() <= usize::MAX,
                n == parsed_pivot_count(bytes@),
                48 + 12 * (n as int) <= bytes@.len(),
                0 <= k <= n,
                pivots@.len() == k,
                forall|j: int| 0 <= j < k ==> #[trigger] pivots@[j] == parsed_pivot(bytes@, j),
                forall|j: int|
                    0 <= j < k ==> #[trigger] parsed_pivot_value(bytes@, j)
                        <= MAX_ITERATION_LIMIT,
            decreases n - k,
        {
            proof {
                assert(12 * (k + 1) <= 12 * (n as int)) by (nonlinear_arith)
                    requires
                        k + 1 <= n as int,
                ;
            }
            let value = u64_from_le_bytes(slice_subrange(b, 48 + 12 * k, 56 + 12 * k));
            if value > MAX_ITERATION_LIMIT as u64 {
                proof {
                    assert(!parse_ok(bytes@)) by {
                        assert(parsed_pivot_value(bytes@, k as int) > MAX_ITERATION_LIMIT);
                    }
                }
                return None;
            }
            let color = Color {
                r: bytes[56 + 12 * k],
                g: bytes[57 + 12 * k],
                b: bytes[58 + 12 * k],
                a: bytes[59 + 12 * k],
            };
            pivots.push(GradientPivot { value: value as usize, color });
            proof {
                assert(parsed_pivot_value(bytes@, k as int) == value);
                assert(pivots@[k as int] == parsed_pivot(bytes@, k as int));
            }
            k = k + 1;
        }
        proof {
            assert(parsed_pivot_count(bytes@) <= (bytes@.len() - 48) / 12) by {
                assert((12 * (n as int)) / 12 == n as int) by {
                    assert(12 * (n as int) == (n as int) * 12) by (nonlinear_arith);
                    vstd::arithmetic::div_mod::lemma_div_by_multiple(n as int, 12);
                }
                vstd::arithmetic::div_mod::lemma_div_is_ordered(
                    12 * (n as int),
                    bytes@.len() - 48,
                    12,
                );
            }
            assert forall|j: int| 0 <= j < parsed_pivot_count(bytes@) implies #[trigger] parsed_pivot_value(
                bytes@,
                j,
            ) <= MAX_ITERATION_LIMIT by {
                assert(pivots@[j] == parsed_pivot(bytes@, j));
            }
            assert(parse_ok(bytes@));
        }
        let gradient = Gradient { inside, root, pivots };
        Some(
            EngineSettings {
                size: Ratchet::new((0, 0)),
                center: Ratchet::new(Complex { re, im }),
                scale: Ratchet::new(scale),
                iteration_limit: Ratchet::new(limit as usize),
                gradient: Pristine::new(gradient),
                zoom_focus: Ratchet::new(None),
            },
        )
    }

    /// Serialize into the URL-safe string form: a version prefix, then the
    /// base64 of the zlib stream of the byte form. The result is URL-safe:
    /// after the prefix it holds only characters of the unpadded URL-safe
    /// base64 alphabet.
    pub fn serialize(&self) -> (r: Option<String>)
        requires
            self.wf(),
        ensures
            r matches Some(st) && st@ == spec_serialized_str(*self),
            r matches Some(st) ==> st@.len() >= 2 && st@[0] == '0' && st@[1] == ':',
            r matches Some(st) ==> forall|i: int|
                2 <= i < st@.len() ==> is_b64url_char(#[trigger] st@[i]),
    {
        let bytes = self.serialize_bytes();
        let z = deflate(bytes.as_slice());
        let encoded = b64_encode(z.as_slice());
        let mut st = String::new();
        st.append("0:");
        st.append(encoded.as_str());
        proof {
            reveal_strlit("0:");
            assert(st@ =~= spec_serialized_str(*self));
            assert forall|i: int| 2 <= i < st@.len() implies is_b64url_char(
                #[trigger] st@[i],
            ) by {
                assert(st@[i] == encoded@[i - 2]);
            }
        }
        Some(st)
    }

    /// Restore a settings value from its serialized string form. On the
    /// serialization of any well-formed settings value this succeeds and
    /// returns that value, with the canvas size and zoom focus at their
    /// starting state; a string without the version prefix, or whose
    /// payload does not decode, decompress and parse, yields nothing.
    pub fn restore(serialized: &str) -> (r: Option<EngineSettings>)
        ensures
            r matches Some(v) ==> v.wf(),
            serialized@.len() < 2 || serialized@[0] != '0' || serialized@[1] != ':' ==> r is None,
            r is Some ==> serialized@.len() >= 2 && serialized@[0] == '0' && serialized@[1]
                == ':',
            r is Some ==> forall|i: int|
                2 <= i < serialized@.len() ==> is_b64url_char(#[trigger] serialized@[i])
                    || serialized@[i] == '=',
            forall|v: EngineSettings|
                v.wf() && serialized@ == #[trigger] spec_serialized_str(v) ==> (r matches Some(rv)
                    && restored_matches(rv, v)),
    {
        let n = serialized.unicode_len();
        if n < 2 {
            return None;
        }
        if serialized.get_char(0) != '0' || serialized.get_char(1) != ':' {
            return None;
        }
        let payload = serialized.substring_char(2, n);
        proof {
            assert forall|v: EngineSettings|
                v.wf() && serialized@ == #[trigger] spec_serialized_str(v) implies payload@
                == b64_of(deflate_of(settings_bytes(v))) by {
                assert(payload@ =~= b64_of(deflate_of(settings_bytes(v))));
            }
        }
        let z = match b64_decode(payload) {
            Some(z) => z,
            None => {
                return None;
            },
        };
        let bytes = match inflate(z.as_slice()) {
            Some(bytes) => bytes,
            None => {
                return None;
            },
        };
        let r = Self::parse_bytes(&bytes);
        proof {
            if r is Some {
                assert forall|i: int|
                    2 <= i < serialized@.len() implies is_b64url_char(#[trigger] serialized@[i])
                    || serialized@[i] == '=' by {
                    assert(serialized@[i] == payload@[i - 2]);
                }
            }
            assert forall|v: EngineSettings|
                v.wf() && serialized@ == #[trigger] spec_serialized_str(v) implies r matches Some(
                rv,
            ) && restored_matches(rv, v) by {
                assert(z@ == deflate_of(settings_bytes(v)));
                assert(bytes@ == settings_bytes(v));
                lemma_settings_bytes_round_trip(v);
            }
        }
        r
    }
}

} // verus!
