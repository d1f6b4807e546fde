//! The render target: parallel escape-count and RGBA pixel buffers, the
//! torus-like pan that recycles already-computed escape counts, and the
//! render pass that turns counts into pixels through a palette.

use crate::color::Color;
use crate::gradient::spec_palette_color;
use crate::gradient::Palette;
use crate::rect::MAX_DIM;
use vstd::prelude::*;

verus! {

/// Width, height, a palette, and two parallel buffers: one `u32` escape
/// count per pixel and four RGBA bytes per pixel, row-major, top-left
/// origin.
#[derive(Debug)]
pub struct Image {
    pub width: usize,
    pub height: usize,
    pub palette: Palette,
    pub escape_counts: Vec<u32>,
    pub pixels: Vec<u8>,
}

/// One channel of a color: r, g, b, a for `j` = 0, 1, 2, 3.
pub open spec fn color_channel(c: Color, j: int) -> u8 {
    if j == 0 {
        c.r
    } else if j == 1 {
        c.g
    } else if j == 2 {
        c.b
    } else {
        c.a
    }
}

/// The pixel bytes a render pass produces: four bytes per escape count,
/// each the palette color of that count.
pub open spec fn rendered_pixels(counts: Seq<u32>, palette: Palette, max_value: int) -> Seq<u8> {
    Seq::new(
        (4 * counts.len()) as nat,
        |i: int| color_channel(spec_palette_color(palette, counts[i / 4] as int, max_value), i % 4),
    )
}

/// Whether the pixel at `(x, y)` lies in one of the strips a pan uncovers:
/// `|dy|` rows at the entering horizontal edge and `|dx|` columns at the
/// entering vertical edge, clipped to the image.
pub open spec fn pan_cleared(dx: int, dy: int, w: int, h: int, x: int, y: int) -> bool {
    ||| (dy >= 0 && y < if dy < h {
        dy
    } else {
        h
    })
    ||| (dy < 0 && y >= h - (if -dy < h {
        -dy
    } else {
        h
    }))
    ||| (dx >= 0 && x < if dx < w {
        dx
    } else {
        w
    })
    ||| (dx < 0 && x >= w - (if -dx < w {
        -dx
    } else {
        w
    }))
}

/// The index a panned pixel takes its escape count from: `di` positions
/// back on the single ring of length `len`.
pub open spec fn pan_source(j: int, di: int, len: int) -> int {
    (j + len - di) % len
}

/// What a pan does to the escape counts: every position either lies in an
/// uncovered strip and is zero, or holds the count that was `di` ring
/// positions before it, where `di` is the pixel shift reduced to the ring.
pub open spec fn panned_counts(
    old_counts: Seq<u32>,
    new_counts: Seq<u32>,
    dx: int,
    dy: int,
    w: int,
    h: int,
) -> bool {
    let len = old_counts.len() as int;
    let di = (dx + dy * w) % len;
    &&& new_counts.len() == len
    &&& forall|j: int|
        0 <= j < len ==> new_counts[j] == (if pan_cleared(dx, dy, w, h, j % w, j / w) {
            0u32
        } else {
            old_counts[pan_source(j, di, len)]
        })
}

impl Image {
    /// Buffers sized to the dimensions, and dimensions small enough for the
    /// region arithmetic of the scheduler.
    pub open spec fn wf(self) -> bool {
        &&& self.width <= MAX_DIM
        &&& self.height <= MAX_DIM
        &&& self.width * self.height <= i32::MAX
        &&& 4 * (self.width * self.height) <= usize::MAX
        &&& self.escape_counts@.len() == self.width * self.height
        &&& self.pixels@.len() == 4 * (self.width * self.height)
    }

    /// A fresh image with both buffers zero-filled.
    pub fn new(width: usize, height: usize, palette: Palette) -> (img: Image)
        requires
            width <= MAX_DIM,
            height <= MAX_DIM,
            width * height <= i32::MAX,
            4 * (width * height) <= usize::MAX,
        ensures
            img.wf(),
            img.width == width,
            img.height == height,
            img.palette == palette,
            img.escape_counts@ =~= Seq::new((width * height) as nat, |i: int| 0u32),
            img.pixels@ =~= Seq::new((4 * (width * height)) as nat, |i: int| 0u8),
    {
        proof {
            assert(width * height >= 0) by (nonlinear_arith)
                requires
                    width >= 0 && height >= 0,
            ;
        }
        let len = width * height;
        let mut escape_counts: Vec<u32> = Vec::new();
        while escape_counts.len() < len
            invariant
                escape_counts@ =~= Seq::new(escape_counts@.len(), |i: int| 0u32),
                escape_counts@.len() <= len,
            decreases len - escape_counts@.len(),
        {
            escape_counts.push(0);
        }
        let mut pixels: Vec<u8> = Vec::new();
        while pixels.len() < 4 * len
            invariant
                4 * len <= usize::MAX,
                pixels@ =~= Seq::new(pixels@.len(), |i: int| 0u8),
                pixels@.len() <= 4 * len,
            decreases 4 * len - pixels@.len(),
        {
            pixels.push(0);
        }
        Image { width, height, palette, escape_counts, pixels }
    }

    /// Shift the escape-count buffer by `(dx, dy)` pixels on the single ring
    /// of length `width * height`, then zero the strips that the shift
    /// uncovers. A count that wrapped from one edge to the opposite one is
    /// stale, but it lies in a strip the caller re-enqueues as dirty, so it
    /// is recomputed before it is next rendered from. The pixel buffer is
    /// left alone. An empty image is left unchanged.
    pub fn pan(&mut self, dx: i32, dy: i32)
        requires
            old(self).wf(),
        ensures
            final (self).wf(),
            final (self).width == old(self).width,
            final (self).height == old(self).height,
            final (self).palette == old(self).palette,
            final (self).pixels == old(self).pixels,
            final (self).escape_counts@.len() == old(self).escape_counts@.len(),
            old(self).escape_counts@.len() > 0 ==> panned_counts(
                old(self).escape_counts@,
                final (self).escape_counts@,
                dx as int,
                dy as int,
                old(self).width as int,
                old(self).height as int,
            ),
    {
        let len = self.escape_counts.len();
        if len == 0 {
            return ;
        }
        let w = self.width;
        let h = self.height;
        proof {
            assert(w * h > 0 ==> w > 0 && h > 0) by (nonlinear_arith);
            assert((dx as int) + (dy as int) * (w as int) < 0x1_0000_0000_0000_0000i128)
                by (nonlinear_arith)
                requires
                    dx <= i32::MAX && dy <= i32::MAX && 0 < w <= MAX_DIM,
            ;
            assert((dx as int) + (dy as int) * (w as int) > -0x1_0000_0000_0000_0000i128)
                by (nonlinear_arith)
                requires
                    dx >= i32::MIN && dy >= i32::MIN && 0 < w <= MAX_DIM,
            ;
        }
        let shift: i128 = (dx as i128) + (dy as i128) * (w as i128);
        let di: usize = ring_index(shift, len);
        let ghost old_counts = self.escape_counts@;
        let mut rotated: Vec<u32> = Vec::new();
        let mut j: usize = 0;
        while j < len
            invariant
                self.escape_counts@ == old_counts,
                0 < len == old_counts.len() <= i32::MAX,
                di < len,
                0 < w,
                w * h == len,
                w <= MAX_DIM,
                h <= MAX_DIM,
                0 <= j <= len,
                rotated@.len() == j,
                forall|k: int|
                    0 <= k < j ==> rotated@[k] == (if pan_cleared(
                        dx as int,
                        dy as int,
                        w as int,
                        h as int,
                        k % (w as int),
                        k / (w as int),
                    ) {
                        0u32
                    } else {
                        old_counts[pan_source(k, di as int, len as int)]
                    }),
            decreases len - j,
        {
            proof {
                vstd::arithmetic::div_mod::lemma_remainder_lower(j as int, w as int);
                vstd::arithmetic::div_mod::lemma_remainder_upper(j as int, w as int);
                vstd::arithmetic::div_mod::lemma_div_pos_is_pos(j as int, w as int);
                vstd::arithmetic::div_mod::lemma_mod_bound((j + len - di) as int, len as int);
            }
            let x: usize = j % w;
            let y: usize = j / w;
            let cleared = if dy >= 0 {
                let strip = if (dy as usize) < h {
                    dy as usize
                } else {
                    h
                };
                y < strip
            } else {
                let mag: usize = if dy == i32::MIN {
                    0x8000_0000usize
                } else {
                    (-dy) as usize
                };
                let strip = if mag < h {
                    mag
                } else {
                    h
                };
                y >= h - strip
            } || if dx >= 0 {
                let strip = if (dx as usize) < w {
                    dx as usize
                } else {
                    w
                };
                x < strip
            } else {
                let mag: usize = if dx == i32::MIN {
                    0x8000_0000usize
                } else {
                    (-dx) as usize
                };
                let strip = if mag < w {
                    mag
                } else {
                    w
                };
                x >= w - strip
            };
            proof {
                assert(cleared == pan_cleared(
                    dx as int,
                    dy as int,
                    w as int,
                    h as int,
                    x as int,
                    y as int,
                ));
            }
            if cleared {
                rotated.push(0);
            } else {
                let src = (j + len - di) % len;
                let v = self.escape_counts[src];
                rotated.push(v);
            }
            j = j + 1;
        }
        self.escape_counts = rotated;
    }

    /// Write the pixel bytes for every escape count from the palette; see
    /// `rendered_pixels`. Counts at or beyond `max_value` render as the
    /// palette's inside color.
    pub fn render_pixels(&mut self, max_value: usize)
        requires
            old(self).wf(),
        ensures
            final (self).wf(),
            final (self).width == old(self).width,
            final (self).height == old(self).height,
            final (self).palette == old(self).palette,
            final (self).escape_counts == old(self).escape_counts,
            final (self).pixels@ =~= rendered_pixels(
                old(self).escape_counts@,
                old(self).palette,
                max_value as int,
            ),
    {
        let len = self.escape_counts.len();
        let mut pixels: Vec<u8> = Vec::new();
        let mut i: usize = 0;
        while i < len
            invariant
                len == self.escape_counts@.len(),
                self.wf(),
                0 <= i <= len,
                pixels@.len() == 4 * i,
                forall|k: int|
                    0 <= k < 4 * i ==> pixels@[k] == rendered_pixels(
                        self.escape_counts@,
                        self.palette,
                        max_value as int,
                    )[k],
            decreases len - i,
        {
            let count = self.escape_counts[i];
            let color = self.palette.get_color(count as usize, max_value);
            let r = color.r;
            let g = color.g;
            let b = color.b;
            let a = color.a;
            pixels.push(r);
            pixels.push(g);
            pixels.push(b);
            pixels.push(a);
            proof {
                let target = rendered_pixels(
                    self.escape_counts@,
                    self.palette,
                    max_value as int,
                );
                assert forall|k: int| 4 * i <= k < 4 * (i + 1) implies pixels@[k] == target[k] by {
                    assert(k / 4 == i as int) by (nonlinear_arith)
                        requires
                            4 * i <= k < 4 * (i + 1),
                    ;
                }
            }
            i = i + 1;
        }
        self.pixels = pixels;
    }

    /// The RGBA bytes of the last render pass, row-major, top-left origin.
    pub fn image_data(&self) -> (r: &[u8])
        ensures
            r@ == self.pixels@,
    {
        self.pixels.as_slice()
    }
}

/// A palette all of whose colors are fully opaque.
pub open spec fn palette_opaque(p: Palette) -> bool {
    &&& p.inside_color.a == 255
    &&& forall|i: int| 0 <= i < p.escape_values@.len() ==> (#[trigger] p.escape_values@[i]).a == 255
}

/// Every fourth byte of a render pass through an opaque palette is 255: the
/// image has no translucent pixel.
pub proof fn lemma_rendered_alpha(counts: Seq<u32>, palette: Palette, max_value: int)
    requires
        palette_opaque(palette),
    ensures
        forall|i: int|
            0 <= i < counts.len() ==> #[trigger] rendered_pixels(counts, palette, max_value)[4 * i
                + 3] == 255,
{
    assert forall|i: int| 0 <= i < counts.len() implies #[trigger] rendered_pixels(
        counts,
        palette,
        max_value,
    )[4 * i + 3] == 255 by {
        assert((4 * i + 3) / 4 == i && (4 * i + 3) % 4 == 3) by (nonlinear_arith);
        assert(spec_palette_color(palette, counts[i] as int, max_value).a == 255);
    }
}

/// A pan never invents an escape count: every pixel after a pan either lies
/// in a freshly cleared strip and is zero, or carries the count that stood
/// `di` ring positions before it — in particular, a pixel whose source
/// stayed on screen keeps its computed count until it is recomputed.
pub proof fn lemma_pan_reuse(
    old_counts: Seq<u32>,
    new_counts: Seq<u32>,
    dx: int,
    dy: int,
    w: int,
    h: int,
    j: int,
)
    requires
        panned_counts(old_counts, new_counts, dx, dy, w, h),
        0 <= j < old_counts.len(),
        !pan_cleared(dx, dy, w, h, j % w, j / w),
    ensures
        new_counts[j] == old_counts[pan_source(j, (dx + dy * w) % (old_counts.len() as int), old_counts.len() as int)],
{
}

/// Reduce an arbitrary shift to an index on a ring of `len` cells: the
/// euclidean remainder of `shift` modulo `len`.
fn ring_index(shift: i128, len: usize) -> (r: usize)
    requires
        0 < len <= i32::MAX,
        -0x1_0000_0000_0000_0000i128 < shift < 0x1_0000_0000_0000_0000i128,
    ensures
        r < len,
        r as int == (shift as int) % (len as int),
{
    let l: u128 = len as u128;
    if shift >= 0 {
        let r = ((shift as u128) % l) as usize;
        proof {
            vstd::arithmetic::div_mod::lemma_mod_bound(shift as int, len as int);
        }
        r
    } else {
        let m = (((-shift) as u128) % l) as usize;
        proof {
            let s = shift as int;
            let l_int = len as int;
            let q = (-s) / l_int;
            let m0 = (-s) % l_int;
            vstd::arithmetic::div_mod::lemma_fundamental_div_mod(-s, l_int);
            vstd::arithmetic::div_mod::lemma_mod_bound(-s, l_int);
            assert(m == m0);
            if m0 == 0 {
                assert((-q) * l_int + 0 == -(l_int * q)) by (nonlinear_arith);
                vstd::arithmetic::div_mod::lemma_fundamental_div_mod_converse_mod(
                    s,
                    l_int,
                    -q,
                    0,
                );
            } else {
                assert((-q - 1) * l_int + (l_int - m0) == -(l_int * q) - m0) by (nonlinear_arith);
                vstd::arithmetic::div_mod::lemma_fundamental_div_mod_converse_mod(
                    s,
                    l_int,
                    -q - 1,
                    l_int - m0,
                );
            }
        }
        if m == 0 {
            0
        } else {
            len - m
        }
    }
}

} // verus!
