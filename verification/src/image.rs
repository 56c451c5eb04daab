//! An RGBA pixel-buffer renderer: a byte buffer of `width * height` pixels,
//! four bytes each, with rectangle fills and age-based color darkening.
//!
//! Scaling the grid to the buffer and walking the cells stay with the host;
//! this module owns the buffer arithmetic and proves every fill lands on
//! exactly the rectangle it was asked for.

use vstd::prelude::*;
use vstd::arithmetic::div_mod::lemma_fundamental_div_mod;
use vstd::arithmetic::div_mod::lemma_fundamental_div_mod_converse;
use vstd::arithmetic::div_mod::lemma_mod_bound;
use vstd::arithmetic::mul::lemma_mul_is_associative;
use vstd::arithmetic::mul::lemma_mul_is_commutative;
use vstd::pervasive::VecAdditionalExecFns;

use crate::logic::filled_zero;

verus! {

/// The byte offset of the pixel at `(x, y)` in a buffer of the given pixel
/// width: four bytes per pixel, rows stored one after the other.
pub open spec fn pixel_index(img_width: int, x: int, y: int) -> int {
    x * 4 + y * (img_width * 4)
}

/// Subtraction on a color channel that stops at zero.
pub open spec fn sat_sub(a: u8, b: u8) -> u8 {
    if a >= b {
        (a - b) as u8
    } else {
        0u8
    }
}

/// The byte a fill with `color` writes at channel `c` of a pixel: the three
/// color channels in order, then a fully opaque alpha.
pub open spec fn rgba_byte(color: (u8, u8, u8), c: int) -> u8 {
    if c == 0 {
        color.0
    } else if c == 1 {
        color.1
    } else if c == 2 {
        color.2
    } else {
        255u8
    }
}

/// Whether byte `j` of the buffer belongs to a pixel of the rectangle of
/// width `w` and height `h` whose top-left pixel is `(x, y)`.
pub open spec fn rect_pixel_hit(img_width: int, x: int, y: int, w: int, h: int, j: int) -> bool {
    let q = j / 4;
    let px = q % img_width;
    let py = q / img_width;
    &&& x <= px < x + w
    &&& y <= py < y + h
}

/// Whether byte `j` belongs to a pixel the rectangle fill has already
/// written when its scan stands at offset `(ox_cur, oy_cur)`: a pixel of a
/// finished row, or an already-passed pixel of the current row.
spec fn rect_prefix_hit(
    img_width: int,
    x: int,
    y: int,
    w: int,
    oy_cur: int,
    ox_cur: int,
    j: int,
) -> bool {
    let q = j / 4;
    let px = q % img_width;
    let py = q / img_width;
    ||| (y <= py < y + oy_cur && x <= px < x + w)
    ||| (py == y + oy_cur && x <= px < x + ox_cur)
}

/// The pixel-buffer renderer: the buffer size in pixels, the RGBA bytes,
/// and the two base colors cells are drawn with.
pub struct ImageRenderer {
    pub size: (usize, usize),
    pub data: Vec<u8>,
    pub alive_color: (u8, u8, u8),
    pub dead_color: (u8, u8, u8),
}

impl ImageRenderer {
    /// Well-formedness: the buffer holds four bytes per pixel, and its
    /// size in bytes fits the machine.
    pub open spec fn wf(&self) -> bool {
        &&& self.data@.len() == self.size.0 * self.size.1 * 4
        &&& self.size.0 * self.size.1 * 4 <= usize::MAX
    }

    /// An empty renderer with a purple alive color on a black background.
    pub fn new() -> (r: ImageRenderer)
        ensures
            r.size.0 == 0,
            r.size.1 == 0,
            r.data@.len() == 0,
            r.alive_color == (244u8, 84u8, 255u8),
            r.dead_color == (0u8, 0u8, 0u8),
            r.wf(),
    {
        ImageRenderer {
            size: (0, 0),
            data: Vec::new(),
            alive_color: (244, 84, 255),
            dead_color: (0, 0, 0),
        }
    }

    /// Resizes the buffer to `size` pixels of four bytes each, all zeroed.
    pub fn set_size(&mut self, size: (usize, usize))
        requires
            size.0 as int * size.1 as int * 4 <= usize::MAX,
        ensures
            final(self).size == size,
            final(self).data@ == Seq::new((size.0 * size.1 * 4) as nat, |i: int| 0u8),
            final(self).alive_color == old(self).alive_color,
            final(self).dead_color == old(self).dead_color,
            final(self).wf(),
    {
        self.size = size;
        self.data = filled_zero(size.0 * size.1 * 4);
    }

    /// The byte offset of an in-bounds pixel; four bytes fit behind it.
    pub fn pos_to_index(&self, pos: (usize, usize)) -> (r: usize)
        requires
            self.wf(),
            pos.0 < self.size.0,
            pos.1 < self.size.1,
        ensures
            r == pixel_index(self.size.0 as int, pos.0 as int, pos.1 as int),
            r + 4 <= self.data@.len(),
    {
        proof {
            assert(0 <= (pos.1 as int) * ((self.size.0 as int) * 4) && (self.size.0 as int) * 4
                <= (self.size.0 as int) * (self.size.1 as int) * 4 && (pos.0 as int) * 4 + (pos.1
                as int) * ((self.size.0 as int) * 4) + 4 <= (self.size.0 as int) * (self.size.1
                as int) * 4) by (nonlinear_arith)
                requires
                    (pos.0 as int) < (self.size.0 as int),
                    (pos.1 as int) < (self.size.1 as int),
                    0 <= (pos.0 as int),
                    0 <= (pos.1 as int),
            ;
        }
        pos.0 * 4 + pos.1 * (self.size.0 * 4)
    }

    /// Darkens a color by subtracting `amount` from each channel, each
    /// channel stopping at zero.
    pub fn darken_color(&self, color: (u8, u8, u8), amount: u8) -> (r: (u8, u8, u8))
        ensures
            r.0 == sat_sub(color.0, amount),
            r.1 == sat_sub(color.1, amount),
            r.2 == sat_sub(color.2, amount),
    {
        (
            color.0.saturating_sub(amount),
            color.1.saturating_sub(amount),
            color.2.saturating_sub(amount),
        )
    }

    /// The display color of one cell: the alive color darkened by the
    /// cell's age for a live cell, the dead color for a dead one.
    pub fn cell_color(&self, alive: bool, life: u8) -> (r: (u8, u8, u8))
        ensures
            alive ==> r == (
                sat_sub(self.alive_color.0, life),
                sat_sub(self.alive_color.1, life),
                sat_sub(self.alive_color.2, life),
            ),
            !alive ==> r == self.dead_color,
    {
        if alive {
            self.darken_color(self.alive_color, life)
        } else {
            self.dead_color
        }
    }

    /// Fills the rectangle of `dims` pixels whose top-left pixel is `pos`
    /// with `color` and a fully opaque alpha; every byte outside the
    /// rectangle keeps its value.
    pub fn draw_rect(&mut self, pos: (usize, usize), dims: (usize, usize), color: (u8, u8, u8))
        requires
            old(self).wf(),
            pos.0 + dims.0 <= old(self).size.0,
            pos.1 + dims.1 <= old(self).size.1,
        ensures
            final(self).size == old(self).size,
            final(self).alive_color == old(self).alive_color,
            final(self).dead_color == old(self).dead_color,
            final(self).wf(),
            final(self).data@.len() == old(self).data@.len(),
            forall|j: int|
                0 <= j < old(self).data@.len() ==> final(self).data@[j] == (if rect_pixel_hit(
                    old(self).size.0 as int,
                    pos.0 as int,
                    pos.1 as int,
                    dims.0 as int,
                    dims.1 as int,
                    j,
                ) {
                    rgba_byte(color, j % 4)
                } else {
                    old(self).data@[j]
                }),
    {
        let ghost d0 = old(self).data@;
        let ghost w0 = old(self).size.0 as int;
        let ghost x0 = pos.0 as int;
        let ghost y0 = pos.1 as int;
        let (x, y) = pos;
        let (w, h) = dims;
        let mut oy: usize = 0;
        while oy < h
            invariant
                oy <= h,
                self.wf(),
                self.size == old(self).size,
                self.alive_color == old(self).alive_color,
                self.dead_color == old(self).dead_color,
                self.data@.len() == d0.len(),
                d0.len() == w0 * (self.size.1 as int) * 4,
                w0 == self.size.0 as int,
                x0 == x as int,
                y0 == y as int,
                x as int + w as int <= w0,
                y as int + h as int <= self.size.1 as int,
                forall|j: int|
                    0 <= j < d0.len() ==> self.data@[j] == (if rect_prefix_hit(
                        w0,
                        x0,
                        y0,
                        w as int,
                        oy as int,
                        0,
                        j,
                    ) {
                        rgba_byte(color, j % 4)
                    } else {
                        d0[j]
                    }),
            decreases h - oy,
        {
            let mut ox: usize = 0;
            while ox < w
                invariant
                    ox <= w,
                    oy < h,
                    self.wf(),
                    self.size == old(self).size,
                    self.alive_color == old(self).alive_color,
                    self.dead_color == old(self).dead_color,
                    self.data@.len() == d0.len(),
                    d0.len() == w0 * (self.size.1 as int) * 4,
                    w0 == self.size.0 as int,
                    x0 == x as int,
                    y0 == y as int,
                    x as int + w as int <= w0,
                    y as int + h as int <= self.size.1 as int,
                    forall|j: int|
                        0 <= j < d0.len() ==> self.data@[j] == (if rect_prefix_hit(
                            w0,
                            x0,
                            y0,
                            w as int,
                            oy as int,
                            ox as int,
                            j,
                        ) {
                            rgba_byte(color, j % 4)
                        } else {
                            d0[j]
                        }),
                decreases w - ox,
            {
                let ghost before = self.data@;
                let cur = self.pos_to_index((x + ox, y + oy));
                self.data.set(cur, color.0);
                self.data.set(cur + 1, color.1);
                self.data.set(cur + 2, color.2);
                self.data.set(cur + 3, 255);
                proof {
                    let px = x0 + ox as int;
                    let py = y0 + oy as int;
                    let jq = px + py * w0;
                    lemma_mul_is_commutative(w0, py);
                    lemma_mul_is_associative(py, w0, 4);
                    assert(cur == 4 * jq);
                    assert forall|j: int| 0 <= j < d0.len() implies self.data@[j] == (
                    if rect_prefix_hit(w0, x0, y0, w as int, oy as int, ox as int + 1, j) {
                        rgba_byte(color, j % 4)
                    } else {
                        d0[j]
                    }) by {
                        lemma_fundamental_div_mod(j, 4);
                        lemma_mod_bound(j, 4);
                        let q = j / 4;
                        lemma_fundamental_div_mod(q, w0);
                        lemma_mod_bound(q, w0);
                        lemma_mul_is_commutative(w0, q / w0);
                        if cur <= j < cur + 4 {
                            lemma_fundamental_div_mod_converse(j, 4, jq, j - cur);
                            lemma_fundamental_div_mod_converse(jq, w0, py, px);
                        }
                    }
                }
                ox = ox + 1;
            }
            oy = oy + 1;
        }
        proof {
            assert forall|j: int| 0 <= j < d0.len() implies self.data@[j] == (if rect_pixel_hit(
                w0,
                x0,
                y0,
                dims.0 as int,
                dims.1 as int,
                j,
            ) {
                rgba_byte(color, j % 4)
            } else {
                d0[j]
            }) by {
            }
        }
    }
}

} // verus!
