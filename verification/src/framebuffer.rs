use vstd::prelude::*;

use crate::layout::{lemma_index_in_range, lemma_index_injective};
use crate::paint::{Shape, Stroke, covers, lemma_paint_concat, paint_at, rgba};

verus! {

/// An RGBA8888 framebuffer: `width` by `height` pixels, stored row after row.
pub struct Framebuffer {
    pub width: u32,
    pub height: u32,
    pub pixels: Vec<u32>,
}

/// Painting nothing shows the buffer as it is.
pub proof fn lemma_shows_nothing(fb: Framebuffer)
    requires
        fb.wf(),
    ensures
        fb.shows(fb, Seq::empty()),
{
}

/// Painting one more stroke over a buffer that shows `strokes` over
/// `start` shows the longer list over `start`.
pub proof fn lemma_shows_push(
    start: Framebuffer,
    before: Framebuffer,
    after: Framebuffer,
    strokes: Seq<Stroke>,
    stroke: Stroke,
)
    requires
        before.shows(start, strokes),
        after.painted(before, stroke),
    ensures
        after.shows(start, strokes.push(stroke)),
{
    assert forall|x: int, y: int| after.in_bounds(x, y) implies #[trigger] after.at(x, y) == paint_at(
        start.at(x, y),
        strokes.push(stroke),
        x,
        y,
    ) by {
        assert(strokes.push(stroke).drop_last() =~= strokes);
        assert(before.at(x, y) == paint_at(start.at(x, y), strokes, x, y));
    }
}

/// Painting `first` over `a` and then `second` over the result shows
/// `first + second` over `a`.
pub proof fn lemma_shows_concat(
    a: Framebuffer,
    b: Framebuffer,
    c: Framebuffer,
    first: Seq<Stroke>,
    second: Seq<Stroke>,
)
    requires
        b.shows(a, first),
        c.shows(b, second),
    ensures
        c.shows(a, first + second),
{
    assert forall|x: int, y: int| c.in_bounds(x, y) implies #[trigger] c.at(x, y) == paint_at(
        a.at(x, y),
        first + second,
        x,
        y,
    ) by {
        assert(b.at(x, y) == paint_at(a.at(x, y), first, x, y));
        lemma_paint_concat(a.at(x, y), first, second, x, y);
    }
}

/// Showing strokes over a blank buffer is drawing them.
pub proof fn lemma_shows_over_blank(blank: Framebuffer, fb: Framebuffer, strokes: Seq<Stroke>)
    requires
        blank.is_blank(),
        fb.shows(blank, strokes),
    ensures
        fb.draws(strokes),
{
    assert forall|x: int, y: int| fb.in_bounds(x, y) implies #[trigger] fb.at(x, y) == paint_at(
        0u32,
        strokes,
        x,
        y,
    ) by {
        lemma_index_in_range(fb.width as int, fb.height as int, x, y);
        assert(blank.at(x, y) == 0u32);
    }
}

/// Two buffers that paint the same stroke over the same buffer hold the
/// same pixels; so `draw_square` paints what `draw_rect` paints with both
/// sides `size`, and `draw_square_hollow` what `draw_rect_hollow` does.
pub proof fn lemma_painted_unique(a: Framebuffer, b1: Framebuffer, b2: Framebuffer, stroke: Stroke)
    requires
        b1.painted(a, stroke),
        b2.painted(a, stroke),
    ensures
        b1.pixels@ == b2.pixels@,
{
    lemma_image_determines_pixels(b1, b2);
}

/// A framebuffer's pixels are determined by its size and its pixel at
/// each in-bound coordinate.
pub proof fn lemma_image_determines_pixels(a: Framebuffer, b: Framebuffer)
    requires
        a.wf(),
        b.wf(),
        a.width == b.width,
        a.height == b.height,
        forall|x: int, y: int| a.in_bounds(x, y) ==> #[trigger] a.at(x, y) == b.at(x, y),
    ensures
        a.pixels@ == b.pixels@,
{
    assert forall|i: int| 0 <= i < a.pixels@.len() implies a.pixels@[i] == b.pixels@[i] by {
        crate::layout::lemma_index_decompose(a.width as int, a.height as int, i);
        assert(a.at(i % (a.width as int), i / (a.width as int)) == b.at(
            i % (a.width as int),
            i / (a.width as int),
        ));
    }
    assert(a.pixels@ =~= b.pixels@);
}

/// Two framebuffers of one size that draw the same strokes hold the same
/// pixels: drawing a frame is deterministic.
pub proof fn lemma_draws_unique(a: Framebuffer, b: Framebuffer, strokes: Seq<Stroke>)
    requires
        a.draws(strokes),
        b.draws(strokes),
        a.width == b.width,
        a.height == b.height,
    ensures
        a.pixels@ == b.pixels@,
{
    lemma_image_determines_pixels(a, b);
}

/// Painting a stroke over a buffer that already shows it changes nothing.
pub proof fn lemma_painted_twice(a: Framebuffer, b: Framebuffer, c: Framebuffer, stroke: Stroke)
    requires
        b.painted(a, stroke),
        c.painted(b, stroke),
    ensures
        c.pixels@ == b.pixels@,
{
    lemma_image_determines_pixels(c, b);
}

impl Framebuffer {
    /// The buffer holds one pixel per cell of the grid, and the grid's size
    /// fits in a `u32`.
    pub open spec fn wf(&self) -> bool {
        &&& self.width as int * self.height as int <= u32::MAX
        &&& self.pixels@.len() == self.width as int * self.height as int
    }

    pub open spec fn in_bounds(&self, x: int, y: int) -> bool {
        0 <= x < self.width && 0 <= y < self.height
    }

    /// Where the pixel at column `x`, row `y` is stored.
    pub open spec fn index_of(&self, x: int, y: int) -> int {
        y * self.width as int + x
    }

    /// The pixel at column `x`, row `y`.
    pub open spec fn at(&self, x: int, y: int) -> u32 {
        self.pixels@[self.index_of(x, y)]
    }

    /// `self` has the size of `before` and every pixel of `self` is the one
    /// that painting `strokes`, in order, over `before` gives.
    pub open spec fn shows(self, before: Framebuffer, strokes: Seq<Stroke>) -> bool {
        &&& self.wf()
        &&& self.width == before.width
        &&& self.height == before.height
        &&& forall|x: int, y: int|
            self.in_bounds(x, y) ==> #[trigger] self.at(x, y) == paint_at(
                before.at(x, y),
                strokes,
                x,
                y,
            )
    }

    /// `self` is `before` with `stroke` painted over it.
    pub open spec fn painted(self, before: Framebuffer, stroke: Stroke) -> bool {
        &&& self.wf()
        &&& self.width == before.width
        &&& self.height == before.height
        &&& forall|x: int, y: int|
            self.in_bounds(x, y) ==> #[trigger] self.at(x, y) == if covers(stroke.shape, x, y) {
                rgba(stroke.color)
            } else {
                before.at(x, y)
            }
    }

    /// Every pixel of `self` is the one that painting `strokes`, in order,
    /// over a blank buffer gives.
    pub open spec fn draws(self, strokes: Seq<Stroke>) -> bool {
        &&& self.wf()
        &&& forall|x: int, y: int|
            self.in_bounds(x, y) ==> #[trigger] self.at(x, y) == paint_at(0u32, strokes, x, y)
    }

    /// Every pixel is black with zero alpha.
    pub open spec fn is_blank(self) -> bool {
        &&& self.wf()
        &&& forall|i: int| 0 <= i < self.pixels@.len() ==> #[trigger] self.pixels@[i] == 0u32
    }

    /// A framebuffer of the given size whose pixels are all zero.
    pub fn new(width: u32, height: u32) -> (fb: Self)
        requires
            width as int * height as int <= u32::MAX,
        ensures
            fb.width == width,
            fb.height == height,
            fb.is_blank(),
    {
        let length: u32 = width * height;
        let mut pixels: Vec<u32> = Vec::new();
        pixels.resize(length as usize, 0u32);
        Framebuffer { width, height, pixels }
    }

    /// Sets every pixel to zero.
    pub fn clear(&mut self)
        ensures
            final(self).width == old(self).width,
            final(self).height == old(self).height,
            final(self).pixels@ == Seq::new(old(self).pixels@.len(), |i: int| 0u32),
            old(self).wf() ==> final(self).is_blank(),
    {
        let n = self.pixels.len();
        for i in 0..n
            invariant
                n == self.pixels@.len(),
                n == old(self).pixels@.len(),
                self.width == old(self).width,
                self.height == old(self).height,
                forall|j: int| 0 <= j < i ==> #[trigger] self.pixels@[j] == 0u32,
        {
            self.pixels.set(i, 0u32);
        }
        assert(self.pixels@ =~= Seq::new(old(self).pixels@.len(), |i: int| 0u32));
    }

    /// Paints the pixel at (`x`, `y`) with `color` shifted into RGBA form;
    /// a coordinate outside the buffer changes nothing.
    pub fn draw_pixel(&mut self, x: u32, y: u32, color: u32)
        requires
            old(self).wf(),
        ensures
            final(self).painted(*old(self), Stroke { shape: Shape::Pixel { x: x as int, y: y as int }, color }),
            old(self).in_bounds(x as int, y as int) ==> final(self).pixels@ == old(self).pixels@.update(
                old(self).index_of(x as int, y as int),
                rgba(color),
            ),
            !old(self).in_bounds(x as int, y as int) ==> final(self).pixels@ == old(self).pixels@,
    {
        let ghost stroke = Stroke { shape: Shape::Pixel { x: x as int, y: y as int }, color };
        if x >= self.width || y >= self.height {
            return ;
        }
        proof {
            lemma_index_in_range(self.width as int, self.height as int, x as int, y as int);
        }
        let idx: u32 = y * self.width + x;
        let value: u32 = (color << 8u32) | 0xffu32;
        self.pixels.set(idx as usize, value);
        proof {
            assert forall|px: int, py: int| self.in_bounds(px, py) implies #[trigger] self.at(
                px,
                py,
            ) == if covers(stroke.shape, px, py) {
                rgba(stroke.color)
            } else {
                old(self).at(px, py)
            } by {
                lemma_index_in_range(self.width as int, self.height as int, px, py);
                if px != x || py != y {
                    if self.index_of(px, py) == idx {
                        lemma_index_injective(self.width as int, px, py, x as int, y as int);
                    }
                }
            }
        }
    }

    /// Paints the `w` by `h` block whose top-left pixel is (`x`, `y`); the
    /// part of it outside the buffer is dropped.
    pub fn draw_rect(&mut self, x: u32, y: u32, w: u32, h: u32, color: u32)
        requires
            old(self).wf(),
            w > 0 && h > 0 ==> x + w - 1 <= u32::MAX && y + h - 1 <= u32::MAX,
        ensures
            final(self).painted(*old(self), Stroke { shape: Shape::Fill { x: x as int, y: y as int, w: w as int, h: h as int }, color }),
    {
        let ghost c = rgba(color);
        for dy in 0..h
            invariant
                old(self).wf(),
                c == rgba(color),
                w > 0 && h > 0 ==> x + w - 1 <= u32::MAX && y + h - 1 <= u32::MAX,
                self.painted(*old(self), Stroke { shape: Shape::Fill { x: x as int, y: y as int, w: w as int, h: dy as int }, color }),
        {
            for dx in 0..w
                invariant
                    old(self).wf(),
                    c == rgba(color),
                    0 <= dy < h,
                    w > 0 && h > 0 ==> x + w - 1 <= u32::MAX && y + h - 1 <= u32::MAX,
                    self.wf(),
                    self.width == old(self).width,
                    self.height == old(self).height,
                    forall|px: int, py: int|
                        self.in_bounds(px, py) ==> #[trigger] self.at(px, py) == if (x <= px < x + w
                            && y <= py < y + dy) || (py == y + dy && x <= px < x + dx) {
                            c
                        } else {
                            old(self).at(px, py)
                        },
            {
                self.draw_pixel(x + dx, y + dy, color);
            }
        }
    }

    /// Paints the border of the `w` by `h` block whose top-left pixel is
    /// (`x`, `y`): its top and bottom rows, then its left and right columns.
    pub fn draw_rect_hollow(&mut self, x: u32, y: u32, w: u32, h: u32, color: u32)
        requires
            old(self).wf(),
            w > 0 ==> x + w - 1 <= u32::MAX && y + h <= u32::MAX && y + h >= 1,
            h > 0 ==> y + h - 1 <= u32::MAX && x + w <= u32::MAX && x + w >= 1,
        ensures
            final(self).painted(*old(self), Stroke { shape: Shape::Outline { x: x as int, y: y as int, w: w as int, h: h as int }, color }),
    {
        let ghost c = rgba(color);
        for horz in 0..w
            invariant
                old(self).wf(),
                c == rgba(color),
                w > 0 ==> x + w - 1 <= u32::MAX && y + h <= u32::MAX && y + h >= 1,
                self.wf(),
                self.width == old(self).width,
                self.height == old(self).height,
                forall|px: int, py: int|
                    self.in_bounds(px, py) ==> #[trigger] self.at(px, py) == if x <= px < x + horz
                        && (py == y || py == y + h - 1) {
                        c
                    } else {
                        old(self).at(px, py)
                    },
        {
            self.draw_pixel(x + horz, y, color);
            self.draw_pixel(x + horz, y + h - 1, color);
        }
        for vert in 0..h
            invariant
                old(self).wf(),
                c == rgba(color),
                h > 0 ==> y + h - 1 <= u32::MAX && x + w <= u32::MAX && x + w >= 1,
                self.wf(),
                self.width == old(self).width,
                self.height == old(self).height,
                forall|px: int, py: int|
                    self.in_bounds(px, py) ==> #[trigger] self.at(px, py) == if (x <= px < x + w && (
                    py == y || py == y + h - 1)) || (y <= py < y + vert && (px == x || px == x + w
                        - 1)) {
                        c
                    } else {
                        old(self).at(px, py)
                    },
        {
            self.draw_pixel(x, y + vert, color);
            self.draw_pixel(x + w - 1, y + vert, color);
        }
    }

    /// Paints the `size` by `size` block whose top-left pixel is (`x`, `y`).
    pub fn draw_square(&mut self, x: u32, y: u32, size: u32, color: u32)
        requires
            old(self).wf(),
            size > 0 ==> x + size - 1 <= u32::MAX && y + size - 1 <= u32::MAX,
        ensures
            final(self).painted(*old(self), Stroke { shape: Shape::Fill { x: x as int, y: y as int, w: size as int, h: size as int }, color }),
    {
        self.draw_rect(x, y, size, size, color);
    }

    /// Paints the border of the `size` by `size` block whose top-left pixel
    /// is (`x`, `y`).
    pub fn draw_square_hollow(&mut self, x: u32, y: u32, size: u32, color: u32)
        requires
            old(self).wf(),
            size > 0 ==> x + size <= u32::MAX && y + size <= u32::MAX,
        ensures
            final(self).painted(*old(self), Stroke { shape: Shape::Outline { x: x as int, y: y as int, w: size as int, h: size as int }, color }),
    {
        self.draw_rect_hollow(x, y, size, size, color);
    }
}

} // verus!
