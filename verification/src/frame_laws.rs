use vstd::prelude::*;

use crate::font::EDITOR_CELL_SIZE;
use crate::framebuffer::Framebuffer;
use crate::paint::{
    Stroke, covers, lemma_paint_concat, lemma_paint_last_cover, lemma_paint_uncovered, paint_at,
    rgba,
};
use crate::state::{GRID_OFFS_X, GRID_OFFS_Y, StateModel};

verus! {

/// The RGBA values of the colours a frame uses.
proof fn lemma_colour_values()
    by (bit_vector)
    ensures
        ((0xffffffu32 << 8u32) | 0xffu32) == 0xffffffffu32,
        ((0x848484u32 << 8u32) | 0xffu32) == 0x848484ffu32,
        ((0x585858u32 << 8u32) | 0xffu32) == 0x585858ffu32,
        ((0x000000u32 << 8u32) | 0xffu32) == 0x000000ffu32,
        ((0x111111u32 << 8u32) | 0xffu32) == 0x111111ffu32,
        ((0x00aa00u32 << 8u32) | 0xffu32) == 0x00aa00ffu32,
        ((0x990000u32 << 8u32) | 0xffu32) == 0x990000ffu32,
        ((0x770000u32 << 8u32) | 0xffu32) == 0x770000ffu32,
        ((0x222222u32 << 8u32) | 0xffu32) == 0x222222ffu32,
{
}

/// The pixels of the first `k` rows of glyph `i` in the grid leave a
/// pixel above or left of the glyph's interior alone.
proof fn lemma_grid_rows_keep(m: StateModel, i: int, k: nat, base: u32, px: int, py: int)
    requires
        px < m.grid_left(i) + 1 || py < m.grid_top(i) + 1,
    ensures
        paint_at(base, m.grid_pixel_rows(i, k), px, py) == base,
    decreases k,
{
    if k > 0 {
        lemma_grid_rows_keep(m, i, (k - 1) as nat, base, px, py);
        let row = m.grid_pixel_row(i, k - 1);
        lemma_paint_concat(base, m.grid_pixel_rows(i, (k - 1) as nat), row, px, py);
        assert forall|c: int| 0 <= c < row.len() implies !covers(#[trigger] row[c].shape, px, py) by {}
        lemma_paint_uncovered(base, row, px, py);
    }
}

/// Rows of glyph `i` below row `y` leave a pixel of row `y` alone.
proof fn lemma_grid_rows_after(m: StateModel, i: int, y: int, k: nat, base: u32, px: int, py: int)
    requires
        0 <= y < k,
        py == m.grid_top(i) + y + 1,
    ensures
        paint_at(base, m.grid_pixel_rows(i, k), px, py) == paint_at(
            base,
            m.grid_pixel_rows(i, (y + 1) as nat),
            px,
            py,
        ),
    decreases k,
{
    if k > y + 1 {
        lemma_grid_rows_after(m, i, y, (k - 1) as nat, base, px, py);
        let row = m.grid_pixel_row(i, k - 1);
        lemma_paint_concat(base, m.grid_pixel_rows(i, (k - 1) as nat), row, px, py);
        assert forall|c: int| 0 <= c < row.len() implies !covers(#[trigger] row[c].shape, px, py) by {}
        lemma_paint_uncovered(
            paint_at(base, m.grid_pixel_rows(i, (k - 1) as nat), px, py),
            row,
            px,
            py,
        );
    }
}

/// Glyph `j` of the grid leaves a pixel above or left of its frame alone.
proof fn lemma_grid_glyph_keeps(m: StateModel, j: int, base: u32, px: int, py: int)
    requires
        px < m.grid_left(j) || py < m.grid_top(j),
    ensures
        paint_at(base, m.grid_glyph(j), px, py) == base,
{
    let frame = seq![m.grid_frame(j)];
    lemma_paint_concat(base, frame, m.grid_pixel_rows(j, m.font.height), px, py);
    assert forall|c: int| 0 <= c < frame.len() implies !covers(#[trigger] frame[c].shape, px, py) by {}
    lemma_paint_uncovered(base, frame, px, py);
    lemma_grid_rows_keep(m, j, m.font.height, base, px, py);
}

/// Glyphs `a` to `n - 1` of the grid leave alone a pixel above or left of
/// each of their frames.
proof fn lemma_grid_range_keeps(m: StateModel, a: nat, n: nat, base: u32, px: int, py: int)
    requires
        a <= n,
        forall|j: int| a <= j < n ==> px < m.grid_left(j) || py < #[trigger] m.grid_top(j),
    ensures
        paint_at(base, m.grid_strokes(n), px, py) == paint_at(base, m.grid_strokes(a), px, py),
    decreases n,
{
    if n > a {
        lemma_grid_range_keeps(m, a, (n - 1) as nat, base, px, py);
        lemma_paint_concat(base, m.grid_strokes((n - 1) as nat), m.grid_glyph(n - 1), px, py);
        lemma_grid_glyph_keeps(m, n - 1, paint_at(base, m.grid_strokes((n - 1) as nat), px, py), px, py);
    }
}

/// Cells `0` to `k - 1` of editor row `cy` leave alone a pixel above or
/// left of the editor.
proof fn lemma_editor_row_keeps(m: StateModel, cy: int, k: nat, base: u32, px: int, py: int)
    requires
        cy >= 0,
        px < m.editor_offs_x || py < m.editor_offs_y,
    ensures
        paint_at(base, m.editor_row(cy, k), px, py) == base,
    decreases k,
{
    if k > 0 {
        lemma_editor_row_keeps(m, cy, (k - 1) as nat, base, px, py);
        let cell = m.editor_cell(k - 1, cy);
        lemma_paint_concat(base, m.editor_row(cy, (k - 1) as nat), cell, px, py);
        assert forall|c: int| 0 <= c < cell.len() implies !covers(#[trigger] cell[c].shape, px, py) by {}
        lemma_paint_uncovered(base, cell, px, py);
    }
}

/// The first `k` editor rows leave alone a pixel above or left of the
/// editor.
proof fn lemma_editor_rows_keep(m: StateModel, k: nat, base: u32, px: int, py: int)
    requires
        px < m.editor_offs_x || py < m.editor_offs_y,
    ensures
        paint_at(base, m.editor_rows(k), px, py) == base,
    decreases k,
{
    if k > 0 {
        lemma_editor_rows_keep(m, (k - 1) as nat, base, px, py);
        lemma_paint_concat(base, m.editor_rows((k - 1) as nat), m.editor_row(k - 1, m.font.width), px, py);
        lemma_editor_row_keeps(m, k - 1, m.font.width, base, px, py);
    }
}

/// The editor leaves alone a pixel above or left of it.
proof fn lemma_editor_keeps(m: StateModel, base: u32, px: int, py: int)
    requires
        m.wf(),
        px < m.editor_offs_x || py < m.editor_offs_y,
    ensures
        paint_at(base, m.editor_strokes(), px, py) == base,
{
    let hover: Seq<Stroke> = m.editor_strokes().subrange(
        m.editor_rows(m.font.height).len() as int,
        m.editor_strokes().len() as int,
    );
    assert(m.editor_strokes() =~= m.editor_rows(m.font.height) + hover);
    lemma_paint_concat(base, m.editor_rows(m.font.height), hover, px, py);
    lemma_editor_rows_keep(m, m.font.height, base, px, py);
    assert forall|c: int| 0 <= c < hover.len() implies !covers(#[trigger] hover[c].shape, px, py) by {}
    lemma_paint_uncovered(base, hover, px, py);
}

/// After a frame is drawn, bit (`x`, `y`) of glyph `i` shows in the glyph
/// grid at column `x` and row `y` inside the glyph's frame, whose top-left
/// corner is at (3, 3) plus twice the glyph size per grid column and row,
/// sixteen glyphs to a row: white when the bit is set, otherwise light grey
/// for the selected glyph, dark grey for the hovered glyph and black for
/// the others. This holds for every such pixel that is on the framebuffer
/// and lies left of or above the editor, which is drawn later.
pub proof fn lemma_grid_shows_glyph_bits(m: StateModel, f: Framebuffer, i: int, x: int, y: int)
    requires
        m.wf(),
        f.draws(m.display_list()),
        0 <= i < m.font.glyphs.len(),
        0 <= x < m.font.width,
        0 <= y < m.font.height,
        f.in_bounds(
            GRID_OFFS_X + (i % 16) * 2 * m.font.width + x + 1,
            GRID_OFFS_Y + (i / 16) * 2 * m.font.height + y + 1,
        ),
        GRID_OFFS_X + (i % 16) * 2 * m.font.width + x + 1 < m.editor_offs_x || GRID_OFFS_Y + (i / 16)
            * 2 * m.font.height + y + 1 < m.editor_offs_y,
    ensures
        f.at(
            GRID_OFFS_X + (i % 16) * 2 * m.font.width + x + 1,
            GRID_OFFS_Y + (i / 16) * 2 * m.font.height + y + 1,
        ) == if m.font.glyphs[i].get(x, y) {
            0xffffffffu32
        } else if i % 16 == m.glyph_sel.0 && i / 16 == m.glyph_sel.1 {
            0x848484ffu32
        } else if i % 16 == m.glyph_hov.0 && i / 16 == m.glyph_hov.1 {
            0x585858ffu32
        } else {
            0x000000ffu32
        },
{
    let fw = m.font.width as int;
    let fh = m.font.height as int;
    let n = m.font.glyphs.len();
    let px = GRID_OFFS_X + (i % 16) * 2 * fw + x + 1;
    let py = GRID_OFFS_Y + (i / 16) * 2 * fh + y + 1;
    assert((i % 16) * 2 * fw == (i % 16) * fw * 2 && (i / 16) * 2 * fh == (i / 16) * fh * 2)
        by (nonlinear_arith);
    assert(px == m.grid_left(i) + x + 1);
    assert(py == m.grid_top(i) + y + 1);
    let grid = m.grid_strokes(n);

    // The editor is drawn over the grid but not over this pixel.
    assert(f.at(px, py) == paint_at(0u32, grid + m.editor_strokes(), px, py));
    lemma_paint_concat(0u32, grid, m.editor_strokes(), px, py);
    lemma_editor_keeps(m, paint_at(0u32, grid, px, py), px, py);

    // Later glyphs lie right of or below this one.
    assert forall|j: int| i + 1 <= j < n implies px < m.grid_left(j) || py < #[trigger] m.grid_top(
        j,
    ) by {
        assert(j / 16 >= i / 16);
        if j / 16 == i / 16 {
            assert(j % 16 > i % 16);
            assert((j % 16) * fw * 2 >= (i % 16) * fw * 2 + 2 * fw) by (nonlinear_arith)
                requires
                    j % 16 >= i % 16 + 1,
                    fw >= 0,
            ;
        } else {
            assert((j / 16) * fh * 2 >= (i / 16) * fh * 2 + 2 * fh) by (nonlinear_arith)
                requires
                    j / 16 >= i / 16 + 1,
                    fh >= 0,
            ;
        }
    }
    lemma_grid_range_keeps(m, (i + 1) as nat, n, 0u32, px, py);

    // Within glyph i: the frame, rows before y, and the pixels of row y
    // before x come first; rows after y and pixels after x miss this pixel.
    let before = paint_at(0u32, m.grid_strokes(i as nat), px, py);
    assert(m.grid_strokes((i + 1) as nat) == m.grid_strokes(i as nat) + m.grid_glyph(i));
    lemma_paint_concat(0u32, m.grid_strokes(i as nat), m.grid_glyph(i), px, py);
    let frame = seq![m.grid_frame(i)];
    lemma_paint_concat(before, frame, m.grid_pixel_rows(i, m.font.height), px, py);
    let framed = paint_at(before, frame, px, py);
    lemma_grid_rows_after(m, i, y, m.font.height, framed, px, py);
    let row = m.grid_pixel_row(i, y);
    lemma_paint_concat(framed, m.grid_pixel_rows(i, y as nat), row, px, py);
    assert forall|k: int| x < k < row.len() implies !covers(#[trigger] row[k].shape, px, py) by {}
    lemma_paint_last_cover(paint_at(framed, m.grid_pixel_rows(i, y as nat), px, py), row, x, px, py);
    lemma_colour_values();
}

/// After a frame is drawn, each editor cell (`cx`, `cy`), the 16 by 16
/// block at the editor's corner plus 16 pixels per cell, shows bit
/// (`cx`, `cy`) of the selected glyph inside its grid lines: white when the
/// bit is set, dark grey otherwise.
pub proof fn lemma_editor_shows_selected_bits(
    m: StateModel,
    f: Framebuffer,
    cx: int,
    cy: int,
    a: int,
    b: int,
)
    requires
        m.wf(),
        m.render_ok(),
        f.draws(m.display_list()),
        0 <= cx < m.font.width,
        0 <= cy < m.font.height,
        1 <= a <= 15,
        1 <= b <= 15,
        f.in_bounds(m.editor_offs_x + 16 * cx + a, m.editor_offs_y + 16 * cy + b),
    ensures
        f.at(m.editor_offs_x + 16 * cx + a, m.editor_offs_y + 16 * cy + b) == if m.font.glyphs[m.glyph_sel.1
            * 16 + m.glyph_sel.0].get(cx, cy) {
            0xffffffffu32
        } else {
            0x111111ffu32
        },
{
    let fw = m.font.width as int;
    let fh = m.font.height as int;
    let n = m.font.glyphs.len();
    let px = m.editor_offs_x + 16 * cx + a;
    let py = m.editor_offs_y + 16 * cy + b;
    let grid = m.grid_strokes(n);
    let rows = m.editor_rows(m.font.height);
    let hover: Seq<Stroke> = m.editor_strokes().subrange(rows.len() as int, m.editor_strokes().len() as int);
    assert(m.editor_strokes() =~= rows + hover);
    assert(m.display_list() =~= (grid + rows) + hover);
    assert(f.at(px, py) == paint_at(0u32, (grid + rows) + hover, px, py));

    // The hover frame runs along grid lines only.
    lemma_paint_concat(0u32, grid + rows, hover, px, py);
    assert forall|c: int| 0 <= c < hover.len() implies !covers(#[trigger] hover[c].shape, px, py) by {}
    lemma_paint_uncovered(paint_at(0u32, grid + rows, px, py), hover, px, py);
    lemma_paint_concat(0u32, grid, rows, px, py);
    let g = paint_at(0u32, grid, px, py);

    // Rows below cy miss this pixel.
    lemma_editor_rows_after(m, cy, m.font.height, g, px, py);
    let upper = paint_at(g, m.editor_rows(cy as nat), px, py);
    lemma_paint_concat(g, m.editor_rows(cy as nat), m.editor_row(cy, m.font.width), px, py);

    // Cells right of cx miss it; in cell cx the block covers it and the
    // grid lines do not.
    lemma_editor_row_after(m, cy, cx, m.font.width, upper, px, py);
    lemma_paint_concat(upper, m.editor_row(cy, cx as nat), m.editor_cell(cx, cy), px, py);
    let cell = m.editor_cell(cx, cy);
    lemma_paint_last_cover(paint_at(upper, m.editor_row(cy, cx as nat), px, py), cell, 0, px, py);
    lemma_colour_values();
}

/// Editor rows below row `cy` leave a pixel of row `cy` alone.
proof fn lemma_editor_rows_after(m: StateModel, cy: int, k: nat, base: u32, px: int, py: int)
    requires
        0 <= cy < k,
        m.editor_offs_y + 16 * cy <= py < m.editor_offs_y + 16 * cy + 16,
    ensures
        paint_at(base, m.editor_rows(k), px, py) == paint_at(base, m.editor_rows((cy + 1) as nat), px, py),
    decreases k,
{
    if k > cy + 1 {
        lemma_editor_rows_after(m, cy, (k - 1) as nat, base, px, py);
        lemma_paint_concat(base, m.editor_rows((k - 1) as nat), m.editor_row(k - 1, m.font.width), px, py);
        lemma_editor_row_below_keeps(
            m,
            k - 1,
            m.font.width,
            paint_at(base, m.editor_rows((k - 1) as nat), px, py),
            px,
            py,
        );
    }
}

/// Editor row `r` leaves alone a pixel above it.
proof fn lemma_editor_row_below_keeps(m: StateModel, r: int, k: nat, base: u32, px: int, py: int)
    requires
        py < m.editor_offs_y + 16 * r,
    ensures
        paint_at(base, m.editor_row(r, k), px, py) == base,
    decreases k,
{
    if k > 0 {
        lemma_editor_row_below_keeps(m, r, (k - 1) as nat, base, px, py);
        let cell = m.editor_cell(k - 1, r);
        lemma_paint_concat(base, m.editor_row(r, (k - 1) as nat), cell, px, py);
        assert forall|c: int| 0 <= c < cell.len() implies !covers(#[trigger] cell[c].shape, px, py) by {}
        lemma_paint_uncovered(base, cell, px, py);
    }
}

/// Cells of an editor row right of cell `cx` leave a pixel of cell `cx`
/// alone.
proof fn lemma_editor_row_after(m: StateModel, cy: int, cx: int, k: nat, base: u32, px: int, py: int)
    requires
        0 <= cx < k,
        m.editor_offs_x + 16 * cx <= px < m.editor_offs_x + 16 * cx + 16,
    ensures
        paint_at(base, m.editor_row(cy, k), px, py) == paint_at(base, m.editor_row(cy, (cx + 1) as nat), px, py),
    decreases k,
{
    if k > cx + 1 {
        lemma_editor_row_after(m, cy, cx, (k - 1) as nat, base, px, py);
        let cell = m.editor_cell(k - 1, cy);
        lemma_paint_concat(base, m.editor_row(cy, (k - 1) as nat), cell, px, py);
        assert forall|c: int| 0 <= c < cell.len() implies !covers(#[trigger] cell[c].shape, px, py) by {}
        lemma_paint_uncovered(paint_at(base, m.editor_row(cy, (k - 1) as nat), px, py), cell, px, py);
    }
}

/// After a frame is drawn, the top row and the left column of the frame
/// round glyph `i` in the grid, a `width + 2` by `height + 2` outline whose
/// top-left corner is at (3, 3) plus twice the glyph size per grid column
/// and row, show the frame's colour: green for the selected glyph, red for
/// the hovered one, dark red for the others. This holds for glyphs at
/// least two rows tall, at every such pixel that is on the framebuffer and
/// lies left of or above the editor.
pub proof fn lemma_grid_shows_glyph_frames(m: StateModel, f: Framebuffer, i: int, px: int, py: int)
    requires
        m.wf(),
        m.font.height >= 2,
        f.draws(m.display_list()),
        0 <= i < m.font.glyphs.len(),
        ({
            let left = GRID_OFFS_X + (i % 16) * 2 * m.font.width;
            let top = GRID_OFFS_Y + (i / 16) * 2 * m.font.height;
            ||| py == top && left <= px < left + m.font.width + 2
            ||| px == left && top <= py < top + m.font.height + 2
        }),
        f.in_bounds(px, py),
        px < m.editor_offs_x || py < m.editor_offs_y,
    ensures
        f.at(px, py) == if i % 16 == m.glyph_sel.0 && i / 16 == m.glyph_sel.1 {
            0x00aa00ffu32
        } else if i % 16 == m.glyph_hov.0 && i / 16 == m.glyph_hov.1 {
            0x990000ffu32
        } else {
            0x770000ffu32
        },
{
    let fw = m.font.width as int;
    let fh = m.font.height as int;
    let n = m.font.glyphs.len();
    assert((i % 16) * 2 * fw == (i % 16) * fw * 2 && (i / 16) * 2 * fh == (i / 16) * fh * 2)
        by (nonlinear_arith);
    let left = m.grid_left(i);
    let top = m.grid_top(i);
    let grid = m.grid_strokes(n);
    assert(f.at(px, py) == paint_at(0u32, grid + m.editor_strokes(), px, py));
    lemma_paint_concat(0u32, grid, m.editor_strokes(), px, py);
    lemma_editor_keeps(m, paint_at(0u32, grid, px, py), px, py);

    assert forall|j: int| i + 1 <= j < n implies px < m.grid_left(j) || py < #[trigger] m.grid_top(
        j,
    ) by {
        assert(j / 16 >= i / 16);
        if j / 16 == i / 16 {
            assert(j % 16 > i % 16);
            assert((j % 16) * fw * 2 >= (i % 16) * fw * 2 + 2 * fw) by (nonlinear_arith)
                requires
                    j % 16 >= i % 16 + 1,
                    fw >= 0,
            ;
        } else {
            assert((j / 16) * fh * 2 >= (i / 16) * fh * 2 + 2 * fh) by (nonlinear_arith)
                requires
                    j / 16 >= i / 16 + 1,
                    fh >= 0,
            ;
        }
    }
    lemma_grid_range_keeps(m, (i + 1) as nat, n, 0u32, px, py);

    let before = paint_at(0u32, m.grid_strokes(i as nat), px, py);
    assert(m.grid_strokes((i + 1) as nat) == m.grid_strokes(i as nat) + m.grid_glyph(i));
    lemma_paint_concat(0u32, m.grid_strokes(i as nat), m.grid_glyph(i), px, py);
    let frame = seq![m.grid_frame(i)];
    lemma_paint_concat(before, frame, m.grid_pixel_rows(i, m.font.height), px, py);
    lemma_grid_rows_keep(m, i, m.font.height, paint_at(before, frame, px, py), px, py);
    lemma_paint_last_cover(before, frame, 0, px, py);
    lemma_colour_values();
}

/// After a frame is drawn, the left grid line of each editor cell
/// (`cx`, `cy`), the column at the editor's left edge plus 16 pixels per
/// cell, shows between the cell's corners the grid-line grey, or green where
/// it borders the hovered cell while the pointer is over the editor.
pub proof fn lemma_editor_shows_grid_lines(m: StateModel, f: Framebuffer, cx: int, cy: int, b: int)
    requires
        m.wf(),
        m.render_ok(),
        f.draws(m.display_list()),
        0 <= cx < m.font.width,
        0 <= cy < m.font.height,
        1 <= b <= 15,
        f.in_bounds(m.editor_offs_x + 16 * cx, m.editor_offs_y + 16 * cy + b),
    ensures
        f.at(m.editor_offs_x + 16 * cx, m.editor_offs_y + 16 * cy + b) == if m.inside_editor_area
            && m.editor_hov.1 == cy && (m.editor_hov.0 == cx || m.editor_hov.0 + 1 == cx) {
            0x00aa00ffu32
        } else {
            0x222222ffu32
        },
{
    let n = m.font.glyphs.len();
    let px = m.editor_offs_x + 16 * cx;
    let py = m.editor_offs_y + 16 * cy + b;
    let grid = m.grid_strokes(n);
    let rows = m.editor_rows(m.font.height);
    let hover: Seq<Stroke> = m.editor_strokes().subrange(rows.len() as int, m.editor_strokes().len() as int);
    assert(m.editor_strokes() =~= rows + hover);
    assert(m.display_list() =~= (grid + rows) + hover);
    assert(f.at(px, py) == paint_at(0u32, (grid + rows) + hover, px, py));
    lemma_paint_concat(0u32, grid + rows, hover, px, py);
    lemma_colour_values();
    if m.inside_editor_area && m.editor_hov.1 == cy && (m.editor_hov.0 == cx || m.editor_hov.0 + 1 == cx) {
        lemma_paint_last_cover(paint_at(0u32, grid + rows, px, py), hover, 0, px, py);
    } else {
        assert forall|c: int| 0 <= c < hover.len() implies !covers(#[trigger] hover[c].shape, px, py) by {}
        lemma_paint_uncovered(paint_at(0u32, grid + rows, px, py), hover, px, py);
        lemma_paint_concat(0u32, grid, rows, px, py);
        let g = paint_at(0u32, grid, px, py);
        lemma_editor_rows_after(m, cy, m.font.height, g, px, py);
        let upper = paint_at(g, m.editor_rows(cy as nat), px, py);
        lemma_paint_concat(g, m.editor_rows(cy as nat), m.editor_row(cy, m.font.width), px, py);
        lemma_editor_row_after(m, cy, cx, m.font.width, upper, px, py);
        lemma_paint_concat(upper, m.editor_row(cy, cx as nat), m.editor_cell(cx, cy), px, py);
        lemma_paint_last_cover(paint_at(upper, m.editor_row(cy, cx as nat), px, py), m.editor_cell(cx, cy), 1, px, py);
    }
}

} // verus!
