use vstd::prelude::*;

verus! {

/// The RGBA value the framebuffer stores for a colour given as `0xRRGGBB`:
/// the colour moves up one byte (its top byte falls off) and the alpha byte
/// is `0xff`.
pub open spec fn rgba(color: u32) -> u32 {
    ((color << 8u32) | 0xffu32) as u32
}

/// A region of the drawing plane, in pixel coordinates.
pub enum Shape {
    /// The single pixel (`x`, `y`).
    Pixel { x: int, y: int },
    /// The `w` by `h` block whose top-left pixel is (`x`, `y`).
    Fill { x: int, y: int, w: int, h: int },
    /// The border of that block: its top and bottom rows and its left and
    /// right columns.
    Outline { x: int, y: int, w: int, h: int },
}

/// One drawing operation: a region painted with one colour.
pub struct Stroke {
    pub shape: Shape,
    pub color: u32,
}

/// Whether `shape` covers the pixel (`px`, `py`).
pub open spec fn covers(shape: Shape, px: int, py: int) -> bool {
    match shape {
        Shape::Pixel { x, y } => px == x && py == y,
        Shape::Fill { x, y, w, h } => x <= px < x + w && y <= py < y + h,
        Shape::Outline { x, y, w, h } => {
            ||| x <= px < x + w && (py == y || py == y + h - 1)
            ||| y <= py < y + h && (px == x || px == x + w - 1)
        },
    }
}

/// The value of pixel (`px`, `py`) after painting `strokes` in order over a
/// pixel that was `base`: the colour of the last stroke that covers it, or
/// `base` where none does.
pub open spec fn paint_at(base: u32, strokes: Seq<Stroke>, px: int, py: int) -> u32
    decreases strokes.len(),
{
    if strokes.len() == 0 {
        base
    } else if covers(strokes.last().shape, px, py) {
        rgba(strokes.last().color)
    } else {
        paint_at(base, strokes.drop_last(), px, py)
    }
}

/// Painting `first` and then `second` is painting their concatenation.
pub proof fn lemma_paint_concat(base: u32, first: Seq<Stroke>, second: Seq<Stroke>, px: int, py: int)
    ensures
        paint_at(base, first + second, px, py) == paint_at(paint_at(base, first, px, py), second, px, py),
    decreases second.len(),
{
    if second.len() == 0 {
        assert(first + second =~= first);
    } else {
        assert((first + second).drop_last() =~= first + second.drop_last());
        assert((first + second).last() == second.last());
        lemma_paint_concat(base, first, second.drop_last(), px, py);
    }
}

/// Painting the same stroke twice in a row shows what painting it once does.
pub proof fn lemma_paint_twice(base: u32, strokes: Seq<Stroke>, stroke: Stroke, px: int, py: int)
    ensures
        paint_at(base, strokes.push(stroke).push(stroke), px, py) == paint_at(base, strokes.push(stroke), px, py),
{
    assert(strokes.push(stroke).push(stroke).drop_last() =~= strokes.push(stroke));
    assert(strokes.push(stroke).drop_last() =~= strokes);
}

/// A pixel that no stroke covers keeps its value.
pub proof fn lemma_paint_uncovered(base: u32, strokes: Seq<Stroke>, px: int, py: int)
    requires
        forall|i: int| 0 <= i < strokes.len() ==> !covers(#[trigger] strokes[i].shape, px, py),
    ensures
        paint_at(base, strokes, px, py) == base,
    decreases strokes.len(),
{
    if strokes.len() > 0 {
        assert(!covers(strokes[strokes.len() - 1].shape, px, py));
        lemma_paint_uncovered(base, strokes.drop_last(), px, py);
    }
}

/// A pixel shows the colour of the last stroke that covers it.
pub proof fn lemma_paint_last_cover(base: u32, strokes: Seq<Stroke>, j: int, px: int, py: int)
    requires
        0 <= j < strokes.len(),
        covers(strokes[j].shape, px, py),
        forall|k: int| j < k < strokes.len() ==> !covers(#[trigger] strokes[k].shape, px, py),
    ensures
        paint_at(base, strokes, px, py) == rgba(strokes[j].color),
    decreases strokes.len(),
{
    if j < strokes.len() - 1 {
        assert(!covers(strokes[strokes.len() - 1].shape, px, py));
        let init = strokes.drop_last();
        assert forall|k: int| j < k < init.len() implies !covers(#[trigger] init[k].shape, px, py) by {
            assert(init[k] == strokes[k]);
        }
        lemma_paint_last_cover(base, init, j, px, py);
    }
}

} // verus!
