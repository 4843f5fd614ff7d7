use vstd::prelude::*;

use crate::bitmatrix::BitGrid;
use crate::font::{
    Font, FontModel, EDITOR_CELL_SIZE, editor_offset, glyph_bytes, glyph_table, psf1_complete,
    psf1_file, psf1_font, psf1_magic,
};
use crate::framebuffer::{
    Framebuffer, lemma_shows_concat, lemma_shows_nothing, lemma_shows_over_blank, lemma_shows_push,
};
use crate::paint::{Shape, Stroke};
use crate::rendering_backend::{Event, KeyButton, MouseButton};
use crate::text::{append_decimal, append_decimal_padded, decimal, zero_padded};

verus! {

/// Left margin of the glyph grid, in framebuffer pixels.
pub const GRID_OFFS_X: u32 = 3;

/// Top margin of the glyph grid, in framebuffer pixels.
pub const GRID_OFFS_Y: u32 = 3;

/// A request from the editor to its window.
pub enum Message {
    Quit,
    ChangeWindowTitle(String),
}

/// Bytes to store under a file name: what saving the font asks for.
pub struct SaveRequest {
    pub file_name: String,
    pub contents: Vec<u8>,
}

/// The editor's state.
pub struct StateModel {
    pub messages: Seq<Message>,
    pub fb: Framebuffer,
    pub font: FontModel,
    pub glyph_hov: (u32, u32),
    pub glyph_sel: (u32, u32),
    pub inside_glyphs_area: bool,
    pub editor_hov: (i32, i32),
    pub inside_editor_area: bool,
    pub editor_offs_x: u32,
    pub editor_offs_y: u32,
    pub drawing: bool,
    pub drawing_sets_bits_to: bool,
    pub saves_counter: u32,
}

/// Integer division rounding towards zero, as machine division does.
pub open spec fn tdiv(a: int, b: int) -> int {
    if a >= 0 {
        a / b
    } else {
        -((-a) / b)
    }
}

/// The glyph-grid cell, along one axis, under window coordinate `v`, where
/// glyphs are `size` pixels long on that axis and drawn at twice that.
pub open spec fn grid_cell(v: int, margin: int, size: int) -> int {
    tdiv(tdiv(v - margin, 2), size)
}

/// The editor cell, along one axis, under window coordinate `v`, where the
/// editor starts at `offs`.
pub open spec fn editor_cell(v: int, offs: int) -> int {
    tdiv(v - offs, EDITOR_CELL_SIZE as int)
}

/// The window title that shows the selected glyph's index.
pub open spec fn window_title(index: nat) -> Seq<char> {
    "psfe | index = "@ + decimal(index)
}

/// The name under which save number `counter` is stored.
pub open spec fn save_file_name(counter: u32) -> Seq<char> {
    "saved_font"@ + zero_padded(decimal(counter as nat), 3) + ".psf"@
}

impl StateModel {
    /// Index of the selected glyph: sixteen glyphs per grid row.
    pub open spec fn selected_index(self) -> int {
        self.glyph_sel.1 * 16 + self.glyph_sel.0
    }

    /// The selection names a glyph of the font.
    pub open spec fn selection_valid(self) -> bool {
        self.selected_index() < self.font.glyphs.len()
    }

    /// The arithmetic of locating the pointer at (`x`, `y`) stays in range
    /// and divides by a nonzero glyph height.
    pub open spec fn hover_ok(self, x: i32, y: i32) -> bool {
        let gx = grid_cell(x as int, GRID_OFFS_X as int, self.font.width as int);
        let gy = grid_cell(y as int, GRID_OFFS_Y as int, self.font.height as int);
        &&& self.font.height > 0
        &&& x - GRID_OFFS_X >= i32::MIN
        &&& y - GRID_OFFS_Y >= i32::MIN
        &&& !(gx < 16 && gy < 16) ==> x - self.editor_offs_x >= i32::MIN && y - self.editor_offs_y
            >= i32::MIN
    }

    /// The state after locating the pointer at (`x`, `y`): over the glyph
    /// grid it hovers a grid cell (a cell left of or above the grid wraps
    /// round to a large index); else over the editor it hovers an editor
    /// cell; else it hovers neither.
    pub open spec fn hovered(self, x: i32, y: i32) -> StateModel {
        let gx = grid_cell(x as int, GRID_OFFS_X as int, self.font.width as int);
        let gy = grid_cell(y as int, GRID_OFFS_Y as int, self.font.height as int);
        let cx = editor_cell(x as int, self.editor_offs_x as int);
        let cy = editor_cell(y as int, self.editor_offs_y as int);
        if gx < 16 && gy < 16 {
            StateModel { glyph_hov: (gx as u32, gy as u32), inside_glyphs_area: true, ..self }
        } else if 0 <= cx < self.font.width && 0 <= cy < self.font.height {
            StateModel {
                inside_glyphs_area: false,
                editor_hov: (cx as i32, cy as i32),
                inside_editor_area: true,
                ..self
            }
        } else {
            StateModel { inside_glyphs_area: false, inside_editor_area: false, ..self }
        }
    }

    /// The font with the selected glyph's pixel under the editor pointer
    /// set to `val`.
    pub open spec fn font_with_hovered_bit(self, val: bool) -> FontModel {
        let i = self.selected_index();
        FontModel {
            glyphs: self.font.glyphs.update(
                i,
                self.font.glyphs[i].with(self.editor_hov.0 as int, self.editor_hov.1 as int, val),
            ),
            ..self.font
        }
    }

    /// The font with glyph `i` cleared.
    pub open spec fn font_with_glyph_cleared(self, i: int) -> FontModel {
        FontModel {
            glyphs: self.font.glyphs.update(i, BitGrid::blank(self.font.width, self.font.height)),
            ..self.font
        }
    }

    /// The font with glyphs 128 to 255, the extended ASCII range, cleared.
    pub open spec fn font_without_extended_ascii(self) -> FontModel {
        FontModel {
            glyphs: Seq::new(
                self.font.glyphs.len(),
                |i: int|
                    if 128 <= i < 256 {
                        BitGrid::blank(self.font.width, self.font.height)
                    } else {
                        self.font.glyphs[i]
                    },
            ),
            ..self.font
        }
    }

    /// The font one row shorter: every glyph loses its top row.
    pub open spec fn font_shortened(self) -> FontModel {
        FontModel {
            height: (self.font.height - 1) as nat,
            glyphs: self.font.glyphs.map_values(|g: BitGrid| g.without_top_row()),
            ..self.font
        }
    }

    /// Handling `event` does not fail: the font still has a row to lose,
    /// the save counter can count on, the pointer can be located, and every
    /// glyph or pixel written names one that exists.
    pub open spec fn accepts(self, event: Event) -> bool {
        match event {
            Event::KeyPress(KeyButton::Minus) => self.font.height > 0,
            Event::KeyPress(KeyButton::Character(c)) => c == 'w' ==> self.saves_counter < u32::MAX,
            Event::MouseMotion(x, y) => {
                let h = self.hovered(x, y);
                &&& self.hover_ok(x, y)
                &&& h.drawing ==> h.selection_valid() && h.editor_hov.1 < self.font.height
            },
            Event::MousePress(button, x, y) => {
                let h = self.hovered(x, y);
                let s = StateModel { glyph_sel: h.glyph_hov, ..h };
                &&& self.hover_ok(x, y)
                &&& h.inside_glyphs_area ==> s.selected_index() <= u32::MAX && (button
                    == MouseButton::Right ==> s.selection_valid())
                &&& !h.inside_glyphs_area && h.inside_editor_area ==> h.selection_valid()
            },
            _ => true,
        }
    }

    /// The state after handling `event`.
    pub open spec fn step(self, event: Event) -> StateModel {
        match event {
            Event::KeyPress(KeyButton::Minus) => {
                let font = self.font_shortened();
                let offs = editor_offset(self.fb.width, self.fb.height, font.width, font.height);
                StateModel { font, editor_offs_x: offs.0, editor_offs_y: offs.1, ..self }
            },
            Event::KeyPress(KeyButton::Character(c)) => {
                if c == 'w' {
                    StateModel { saves_counter: (self.saves_counter + 1) as u32, ..self }
                } else if c == 'c' {
                    StateModel { font: self.font_without_extended_ascii(), ..self }
                } else {
                    self
                }
            },
            Event::MouseMotion(x, y) => {
                let h = self.hovered(x, y);
                if h.drawing {
                    StateModel { font: h.font_with_hovered_bit(h.drawing_sets_bits_to), ..h }
                } else {
                    h
                }
            },
            Event::MousePress(button, x, y) => {
                let h = self.hovered(x, y);
                if h.inside_glyphs_area {
                    let s = StateModel { glyph_sel: h.glyph_hov, ..h };
                    if button == MouseButton::Right {
                        StateModel { font: s.font_with_glyph_cleared(s.selected_index()), ..s }
                    } else {
                        s
                    }
                } else if h.inside_editor_area {
                    let d = if !h.drawing {
                        StateModel {
                            drawing: true,
                            drawing_sets_bits_to: button == MouseButton::Left,
                            ..h
                        }
                    } else {
                        h
                    };
                    StateModel { font: d.font_with_hovered_bit(d.drawing_sets_bits_to), ..d }
                } else {
                    h
                }
            },
            Event::MouseRelease(_, _) => StateModel { drawing: false, ..self },
            _ => self,
        }
    }
}

/// Border colour of a glyph in the grid.
pub open spec fn border_color(selected: bool, hovered: bool) -> u32 {
    if selected {
        0x00aa00
    } else if hovered {
        0x990000
    } else {
        0x770000
    }
}

/// Colour of a glyph pixel in the grid.
pub open spec fn grid_pixel_color(bit: bool, selected: bool, hovered: bool) -> u32 {
    if bit {
        0xffffff
    } else if selected {
        0x848484
    } else if hovered {
        0x585858
    } else {
        0x000000
    }
}

/// Colour of an editor cell.
pub open spec fn editor_cell_color(bit: bool) -> u32 {
    if bit {
        0xffffff
    } else {
        0x111111
    }
}

/// Colour of the editor cells' grid lines.
pub open spec fn editor_grid_color() -> u32 {
    0x222222
}

/// Colour of the frame round the hovered editor cell.
pub open spec fn editor_hover_color() -> u32 {
    0x00aa00
}

impl StateModel {
    /// Left edge of glyph `i`'s frame in the grid: sixteen glyphs per row,
    /// each drawn at twice its size.
    pub open spec fn grid_left(self, i: int) -> int {
        GRID_OFFS_X + (i % 16) * self.font.width * 2
    }

    /// Top edge of glyph `i`'s frame in the grid.
    pub open spec fn grid_top(self, i: int) -> int {
        GRID_OFFS_Y + (i / 16) * self.font.height * 2
    }

    pub open spec fn grid_hovered(self, i: int) -> bool {
        i % 16 == self.glyph_hov.0 && i / 16 == self.glyph_hov.1
    }

    pub open spec fn grid_selected(self, i: int) -> bool {
        i % 16 == self.glyph_sel.0 && i / 16 == self.glyph_sel.1
    }

    /// The frame round glyph `i` in the grid.
    pub open spec fn grid_frame(self, i: int) -> Stroke {
        Stroke {
            shape: Shape::Outline {
                x: self.grid_left(i),
                y: self.grid_top(i),
                w: self.font.width + 2int,
                h: self.font.height + 2int,
            },
            color: border_color(self.grid_selected(i), self.grid_hovered(i)),
        }
    }

    /// The pixels of row `y` of glyph `i`, inside its frame.
    pub open spec fn grid_pixel_row(self, i: int, y: int) -> Seq<Stroke> {
        Seq::new(
            self.font.width,
            |x: int|
                Stroke {
                    shape: Shape::Pixel { x: self.grid_left(i) + x + 1, y: self.grid_top(i) + y + 1 },
                    color: grid_pixel_color(
                        self.font.glyphs[i].get(x, y),
                        self.grid_selected(i),
                        self.grid_hovered(i),
                    ),
                },
        )
    }

    /// The pixels of the first `k` rows of glyph `i`, row after row.
    pub open spec fn grid_pixel_rows(self, i: int, k: nat) -> Seq<Stroke>
        decreases k,
    {
        if k == 0 {
            Seq::empty()
        } else {
            self.grid_pixel_rows(i, (k - 1) as nat) + self.grid_pixel_row(i, k - 1)
        }
    }

    /// Glyph `i` in the grid: its frame, then its pixels.
    pub open spec fn grid_glyph(self, i: int) -> Seq<Stroke> {
        seq![self.grid_frame(i)] + self.grid_pixel_rows(i, self.font.height)
    }

    /// The first `n` glyphs of the grid.
    pub open spec fn grid_strokes(self, n: nat) -> Seq<Stroke>
        decreases n,
    {
        if n == 0 {
            Seq::empty()
        } else {
            self.grid_strokes((n - 1) as nat) + self.grid_glyph(n - 1)
        }
    }

    /// Editor cell (`cx`, `cy`): a block coloured by the selected glyph's
    /// pixel, then its grid lines.
    pub open spec fn editor_cell(self, cx: int, cy: int) -> Seq<Stroke> {
        let left = self.editor_offs_x + cx * EDITOR_CELL_SIZE;
        let top = self.editor_offs_y + cy * EDITOR_CELL_SIZE;
        seq![
            Stroke {
                shape: Shape::Fill { x: left, y: top, w: 16, h: 16 },
                color: editor_cell_color(self.font.glyphs[self.selected_index()].get(cx, cy)),
            },
            Stroke { shape: Shape::Outline { x: left, y: top, w: 17, h: 17 }, color: editor_grid_color() },
        ]
    }

    /// The first `k` cells of editor row `cy`.
    pub open spec fn editor_row(self, cy: int, k: nat) -> Seq<Stroke>
        decreases k,
    {
        if k == 0 {
            Seq::empty()
        } else {
            self.editor_row(cy, (k - 1) as nat) + self.editor_cell(k - 1, cy)
        }
    }

    /// The first `k` rows of the editor.
    pub open spec fn editor_rows(self, k: nat) -> Seq<Stroke>
        decreases k,
    {
        if k == 0 {
            Seq::empty()
        } else {
            self.editor_rows((k - 1) as nat) + self.editor_row(k - 1, self.font.width)
        }
    }

    /// The editor: its cells, then a frame round the hovered cell when the
    /// pointer is over it.
    pub open spec fn editor_strokes(self) -> Seq<Stroke> {
        self.editor_rows(self.font.height) + if self.inside_editor_area {
            seq![
                Stroke {
                    shape: Shape::Outline {
                        x: self.editor_offs_x + self.editor_hov.0 * EDITOR_CELL_SIZE,
                        y: self.editor_offs_y + self.editor_hov.1 * EDITOR_CELL_SIZE,
                        w: 17,
                        h: 17,
                    },
                    color: editor_hover_color(),
                },
            ]
        } else {
            Seq::empty()
        }
    }

    /// What a frame shows: the glyph grid, then the editor.
    pub open spec fn display_list(self) -> Seq<Stroke> {
        self.grid_strokes(self.font.glyphs.len()) + self.editor_strokes()
    }

    /// Drawing a frame does not fail: the selection names a glyph and the
    /// hovered editor cell's position fits an `i32`.
    pub open spec fn render_ok(self) -> bool {
        &&& self.selection_valid()
        &&& self.inside_editor_area ==> {
            &&& self.editor_offs_x + self.editor_hov.0 * EDITOR_CELL_SIZE <= i32::MAX
            &&& self.editor_offs_y + self.editor_hov.1 * EDITOR_CELL_SIZE <= i32::MAX
        }
    }
}

/// The message queue after handling `event`: Escape asks to quit, and
/// selecting a glyph asks to show its index in the window title.
pub open spec fn queued_after(before: Seq<Message>, after: Seq<Message>, m: StateModel, event: Event) -> bool {
    match event {
        Event::KeyPress(KeyButton::Escape) => after == before.push(Message::Quit),
        Event::MousePress(_, x, y) => if m.hovered(x, y).inside_glyphs_area {
            let s = StateModel { glyph_sel: m.hovered(x, y).glyph_hov, ..m.hovered(x, y) };
            &&& after.len() == before.len() + 1
            &&& after.subrange(0, before.len() as int) == before
            &&& after.last() matches Message::ChangeWindowTitle(t) && t@ == window_title(
                s.selected_index() as nat,
            )
        } else {
            after == before
        },
        _ => after == before,
    }
}

/// What is under the pointer.
enum Hover {
    Glyph(u32, u32),
    Editor(i32, i32),
    Outside,
}

/// The glyph editor.
pub struct State {
    pub message_queue: Vec<Message>,
    pub fb: Framebuffer,
    font: Font,
    glyph_hov: (u32, u32),
    glyph_sel: (u32, u32),
    inside_glyphs_area: bool,
    editor_hov: (i32, i32),
    inside_editor_area: bool,
    editor_offs_x: u32,
    editor_offs_y: u32,
    drawing: bool,
    drawing_sets_bits_to: bool,
    saves_counter: u32,
}

impl View for State {
    type V = StateModel;

    closed spec fn view(&self) -> StateModel {
        StateModel {
            messages: self.message_queue@,
            fb: self.fb,
            font: self.font@,
            glyph_hov: self.glyph_hov,
            glyph_sel: self.glyph_sel,
            inside_glyphs_area: self.inside_glyphs_area,
            editor_hov: self.editor_hov,
            inside_editor_area: self.inside_editor_area,
            editor_offs_x: self.editor_offs_x,
            editor_offs_y: self.editor_offs_y,
            drawing: self.drawing,
            drawing_sets_bits_to: self.drawing_sets_bits_to,
            saves_counter: self.saves_counter,
        }
    }
}

impl StateModel {
    /// The framebuffer fits the editor, the editor is centred on it, and the
    /// editor pointer's cell is one the editor has had.
    pub open spec fn wf(self) -> bool {
        &&& self.font.wf()
        &&& self.fb.wf()
        &&& self.fb.width / 2 >= self.font.width * 8
        &&& self.fb.height / 2 >= self.font.height * 8
        &&& (self.editor_offs_x, self.editor_offs_y) == editor_offset(
            self.fb.width,
            self.fb.height,
            self.font.width,
            self.font.height,
        )
        &&& 0 <= self.editor_hov.0 < self.font.width
        &&& 0 <= self.editor_hov.1 <= u8::MAX
    }
}

impl State {
    /// The framebuffer and the font are well formed and the model is.
    pub closed spec fn inv(&self) -> bool {
        &&& self.font.wf()
        &&& self@.wf()
    }

    /// The invariant makes the model well formed.
    pub proof fn lemma_inv(&self)
        requires
            self.inv(),
        ensures
            self@.wf(),
    {
    }

    /// The framebuffer that frames are drawn into.
    pub fn framebuffer(&self) -> (fb: &Framebuffer)
        ensures
            *fb == self@.fb,
    {
        &self.fb
    }

    /// The messages queued for the window.
    pub fn messages(&self) -> (queue: &Vec<Message>)
        ensures
            queue@ == self@.messages,
    {
        &self.message_queue
    }

    /// The editor for the PSF1 font in `file`, on a blank `fb_width` by
    /// `fb_height` framebuffer: glyph 0 selected, nothing hovered, not
    /// drawing.
    pub fn new(fb_width: u32, fb_height: u32, file: &[u8]) -> (state: Self)
        requires
            file@.len() >= 2,
            psf1_magic(file@),
            psf1_complete(file@),
            fb_width / 2 >= 64,
            fb_height / 2 >= file@[3] * 8,
            fb_width as int * fb_height as int <= u32::MAX,
        ensures
            state.inv(),
            state@.messages.len() == 0,
            state@.fb.is_blank(),
            state@.fb.width == fb_width,
            state@.fb.height == fb_height,
            state@ == (StateModel {
                messages: state@.messages,
                fb: state@.fb,
                font: psf1_font(file@),
                glyph_hov: (0, 0),
                glyph_sel: (0, 0),
                inside_glyphs_area: false,
                editor_hov: (0, 0),
                inside_editor_area: false,
                editor_offs_x: editor_offset(fb_width, fb_height, 8, file@[3] as nat).0,
                editor_offs_y: editor_offset(fb_width, fb_height, 8, file@[3] as nat).1,
                drawing: false,
                drawing_sets_bits_to: true,
                saves_counter: 0,
            }),
    {
        let font = Font::from_file(file).unwrap();
        proof {
            font.lemma_wf();
        }
        let (editor_offs_x, editor_offs_y) = font.calculate_editor_offset(fb_width, fb_height);
        let state = State {
            message_queue: Vec::new(),
            fb: Framebuffer::new(fb_width, fb_height),
            font,
            glyph_hov: (0, 0),
            glyph_sel: (0, 0),
            inside_glyphs_area: false,
            editor_hov: (0, 0),
            inside_editor_area: false,
            editor_offs_x,
            editor_offs_y,
            drawing: false,
            drawing_sets_bits_to: true,
            saves_counter: 0,
        };
        state
    }

    /// Whether `new` can build the editor: the file is a complete PSF1 font
    /// and the framebuffer is large enough to centre the editor on.
    pub fn can_create(fb_width: u32, fb_height: u32, file: &[u8]) -> (ok: bool)
        ensures
            ok == (file@.len() >= 2 && psf1_magic(file@) && psf1_complete(file@) && fb_width / 2 >= 64
                && fb_height / 2 >= file@[3] * 8 && fb_width as int * fb_height as int <= u32::MAX),
    {
        if file.len() < 4 || file[0] != crate::font::PSF1_MAGIC0 || file[1] != crate::font::PSF1_MAGIC1 {
            return false;
        }
        let glyphs: u64 = if file[2] & crate::font::PSF1_MODE512 != 0 {
            512
        } else {
            256
        };
        let height = file[3];
        let w = fb_width as u64;
        let h = fb_height as u64;
        assert(w * h <= u32::MAX as u64 * u32::MAX as u64) by (nonlinear_arith)
            requires
                w <= u32::MAX,
                h <= u32::MAX,
        ;
        4 + glyphs * height as u64 <= file.len() as u64 && fb_width / 2 >= 64 && fb_height / 2
            >= height as u32 * 8 && w * h <= u32::MAX as u64
    }

    /// Index of the selected glyph.
    pub fn get_selected_index(&self) -> (index: usize)
        requires
            self@.selected_index() <= u32::MAX,
        ensures
            index == self@.selected_index(),
    {
        let (sel_x, sel_y) = self.glyph_sel;
        let sel_idx = sel_y * 16 + sel_x;
        sel_idx as usize
    }

    /// Handles one input event: Escape asks to quit, `-` takes the top row
    /// off every glyph and re-centres the editor, `w` asks to save the font
    /// (the request is returned), `c` clears the extended ASCII glyphs; the
    /// pointer hovers grid and editor cells, a press on the grid selects a
    /// glyph (and the right button clears it), a press on the editor starts
    /// drawing (setting bits with the left button, clearing them with the
    /// others), moving while drawing paints the hovered editor cell, and a
    /// release stops drawing.
    pub fn events(&mut self, event: Event) -> (save: Option<SaveRequest>)
        requires
            old(self).inv(),
            old(self)@.accepts(event),
        ensures
            final(self).inv(),
            final(self)@ == (StateModel { messages: final(self)@.messages, ..old(self)@.step(event) }),
            queued_after(old(self)@.messages, final(self)@.messages, old(self)@, event),
            save is Some <==> event == Event::KeyPress(KeyButton::Character('w')),
            save matches Some(r) ==> r.file_name@ == save_file_name(old(self)@.saves_counter)
                && r.contents@ == psf1_file(old(self)@.font),
    {
        match event {
            Event::KeyPress(key) => self.key_pressed(key),
            Event::MouseMotion(x, y) => {
                self.mouse_moved(x, y);
                None
            },
            Event::MousePress(button, x, y) => {
                self.mouse_pressed(button, x, y);
                None
            },
            Event::MouseRelease(_, _) => {
                self.drawing = false;
                None
            },
            _ => None,
        }
    }

    fn key_pressed(&mut self, key: KeyButton) -> (save: Option<SaveRequest>)
        requires
            old(self).inv(),
            old(self)@.accepts(Event::KeyPress(key)),
        ensures
            final(self).inv(),
            final(self)@ == (StateModel { messages: final(self)@.messages, ..old(self)@.step(Event::KeyPress(key)) }),
            queued_after(old(self)@.messages, final(self)@.messages, old(self)@, Event::KeyPress(key)),
            save is Some <==> key == KeyButton::Character('w'),
            save matches Some(r) ==> r.file_name@ == save_file_name(old(self)@.saves_counter)
                && r.contents@ == psf1_file(old(self)@.font),
    {
        proof {
            self.font.lemma_wf();
        }
        match key {
            KeyButton::Escape => {
                self.message_queue.push(Message::Quit);
                None
            },
            KeyButton::Minus => {
                self.font.decrease_height();
                let fb_w = self.fb.width;
                let fb_h = self.fb.height;
                proof {
                    self.font.lemma_wf();
                }
                let (offs_x, offs_y) = self.font.calculate_editor_offset(fb_w, fb_h);
                self.editor_offs_x = offs_x;
                self.editor_offs_y = offs_y;
                None
            },
            KeyButton::Character(c) => {
                if c == 'w' {
                    Some(self.save_file())
                } else if c == 'c' {
                    self.clear_extend_ascii();
                    None
                } else {
                    None
                }
            },
        }
    }

    fn mouse_moved(&mut self, x: i32, y: i32)
        requires
            old(self).inv(),
            old(self)@.accepts(Event::MouseMotion(x, y)),
        ensures
            final(self).inv(),
            final(self)@ == old(self)@.step(Event::MouseMotion(x, y)),
    {
        self.detect_mouse_hover(x, y);
        if self.drawing {
            let (hov_x, hov_y) = self.editor_hov;
            let sel_idx = self.get_selected_index();
            proof {
                self.font.lemma_wf();
            }
            self.font.set_glyph_bit(sel_idx, hov_x as usize, hov_y as usize, self.drawing_sets_bits_to);
        }
    }

    fn mouse_pressed(&mut self, button: MouseButton, x: i32, y: i32)
        requires
            old(self).inv(),
            old(self)@.accepts(Event::MousePress(button, x, y)),
        ensures
            final(self).inv(),
            final(self)@ == (StateModel {
                messages: final(self)@.messages,
                ..old(self)@.step(Event::MousePress(button, x, y))
            }),
            queued_after(old(self)@.messages, final(self)@.messages, old(self)@, Event::MousePress(button, x, y)),
    {
        self.detect_mouse_hover(x, y);
        if self.inside_glyphs_area {
            self.glyph_sel = self.glyph_hov;
            let mut title = String::from_str("psfe | index = ");
            append_decimal(&mut title, self.get_selected_index() as u64);
            let ghost before = self.message_queue@;
            self.message_queue.push(Message::ChangeWindowTitle(title));
            proof {
                assert(self.message_queue@.subrange(0, before.len() as int) =~= before);
            }
            if button == MouseButton::Right {
                let sel_idx = self.get_selected_index();
                proof {
                    self.font.lemma_wf();
                }
                self.font.clear_glyph(sel_idx);
            }
            return ;
        }
        if self.inside_editor_area {
            let (hov_x, hov_y) = self.editor_hov;
            let sel_idx = self.get_selected_index();
            if !self.drawing {
                self.drawing = true;
                self.drawing_sets_bits_to = button == MouseButton::Left;
            }
            proof {
                self.font.lemma_wf();
            }
            self.font.set_glyph_bit(sel_idx, hov_x as usize, hov_y as usize, self.drawing_sets_bits_to);
        }
    }

    /// Draws a frame: clears the framebuffer, then draws the glyph grid and
    /// the editor over it.
    pub fn render(&mut self)
        requires
            old(self).inv(),
            old(self)@.render_ok(),
        ensures
            final(self).inv(),
            final(self)@ == (StateModel { fb: final(self)@.fb, ..old(self)@ }),
            final(self)@.fb.width == old(self)@.fb.width,
            final(self)@.fb.height == old(self)@.fb.height,
            final(self)@.fb.draws(old(self)@.display_list()),
    {
        self.fb.clear();
        let ghost blank = self.fb;
        self.render_glyphs_grid(Ghost(old(self)@));
        let ghost grid = self.fb;
        self.render_glyph_editor(Ghost(old(self)@));
        proof {
            let m = old(self)@;
            lemma_shows_concat(blank, grid, self.fb, m.grid_strokes(m.font.glyphs.len()), m.editor_strokes());
            lemma_shows_over_blank(blank, self.fb, m.display_list());
        }
    }

    /// Draws every glyph in the grid, sixteen per row.
    fn render_glyphs_grid(&mut self, Ghost(m): Ghost<StateModel>)
        requires
            old(self).inv(),
            old(self)@ == (StateModel { fb: old(self)@.fb, ..m }),
            m.fb.width == old(self)@.fb.width,
            m.fb.height == old(self)@.fb.height,
        ensures
            final(self).inv(),
            final(self)@ == (StateModel { fb: final(self)@.fb, ..m }),
            final(self).fb.shows(old(self).fb, m.grid_strokes(m.font.glyphs.len())),
    {
        proof {
            self.font.lemma_wf();
            lemma_shows_nothing(self.fb);
        }
        let n = self.font.num_glyphs();
        let fw = self.font.width() as u32;
        let fh = self.font.height() as u32;
        assert(m.grid_strokes(0) =~= Seq::<Stroke>::empty());
        for i in 0..n
            invariant
                m.font.wf(),
                n == m.font.glyphs.len(),
                fw == m.font.width,
                fh == m.font.height,
                self.inv(),
                self@ == (StateModel { fb: self@.fb, ..m }),
                self@.fb.width == m.fb.width,
                self@.fb.height == m.fb.height,
                self.fb.shows(old(self).fb, m.grid_strokes(i as nat)),
        {
            let gx = (i % 16) as u32;
            let gy = (i / 16) as u32;
            assert(gx * fw * 2 <= 15 * 8 * 2 && gy * fh * 2 <= 31 * 255 * 2) by (nonlinear_arith)
                requires
                    gx < 16,
                    gy < 32,
                    fw == 8,
                    fh <= 255,
            ;
            let offset_x = GRID_OFFS_X + gx * fw * 2;
            let offset_y = GRID_OFFS_Y + gy * fh * 2;
            let (hov_x, hov_y) = self.glyph_hov;
            let (sel_x, sel_y) = self.glyph_sel;
            let hovered = gx == hov_x && gy == hov_y;
            let selected = gx == sel_x && gy == sel_y;
            let border_color = if selected {
                0x00aa00
            } else if hovered {
                0x990000
            } else {
                0x770000
            };
            let ghost prefix = m.grid_strokes(i as nat);
            let ghost before = self.fb;
            self.fb.draw_rect_hollow(offset_x, offset_y, fw + 2, fh + 2, border_color);
            proof {
                lemma_shows_push(old(self).fb, before, self.fb, prefix, m.grid_frame(i as int));
                assert(prefix.push(m.grid_frame(i as int)) =~= prefix + seq![m.grid_frame(i as int)]
                    + m.grid_pixel_rows(i as int, 0));
            }
            for y in 0..fh
                invariant
                    m.font.wf(),
                    n == m.font.glyphs.len(),
                    i < n,
                    fw == m.font.width,
                    fh == m.font.height,
                    offset_x == m.grid_left(i as int),
                    offset_y == m.grid_top(i as int),
                    offset_x <= 3 + 15 * 8 * 2,
                    offset_y <= 3 + 31 * 255 * 2,
                    hovered == m.grid_hovered(i as int),
                    selected == m.grid_selected(i as int),
                    self.inv(),
                    self@ == (StateModel { fb: self@.fb, ..m }),
                    self@.fb.width == m.fb.width,
                    self@.fb.height == m.fb.height,
                    prefix == m.grid_strokes(i as nat),
                    self.fb.shows(old(self).fb, prefix + seq![m.grid_frame(i as int)] + m.grid_pixel_rows(i as int, y as nat)),
            {
                for x in 0..fw
                    invariant
                        m.font.wf(),
                        n == m.font.glyphs.len(),
                        i < n,
                        y < fh,
                        fw == m.font.width,
                        fh == m.font.height,
                        offset_x == m.grid_left(i as int),
                        offset_y == m.grid_top(i as int),
                        offset_x <= 3 + 15 * 8 * 2,
                        offset_y <= 3 + 31 * 255 * 2,
                        hovered == m.grid_hovered(i as int),
                        selected == m.grid_selected(i as int),
                        self.inv(),
                        self@ == (StateModel { fb: self@.fb, ..m }),
                        self@.fb.width == m.fb.width,
                        self@.fb.height == m.fb.height,
                        prefix == m.grid_strokes(i as nat),
                        self.fb.shows(old(self).fb, prefix + seq![m.grid_frame(i as int)] + m.grid_pixel_rows(i as int, y as nat)
                            + m.grid_pixel_row(i as int, y as int).take(x as int)),
                {
                    let color = {
                        if self.font.glyph_bit(i, x as usize, y as usize) {
                            0xffffff
                        } else if selected {
                            0x848484
                        } else if hovered {
                            0x585858
                        } else {
                            0x000000
                        }
                    };
                    let ghost done = prefix + seq![m.grid_frame(i as int)] + m.grid_pixel_rows(i as int, y as nat)
                        + m.grid_pixel_row(i as int, y as int).take(x as int);
                    let ghost before = self.fb;
                    self.fb.draw_pixel(offset_x + x + 1, offset_y + y + 1, color);
                    proof {
                        let row = m.grid_pixel_row(i as int, y as int);
                        assert(row[x as int] == Stroke { shape: Shape::Pixel { x: (offset_x + x + 1) as int, y: (offset_y + y + 1) as int }, color });
                        lemma_shows_push(old(self).fb, before, self.fb, done, row[x as int]);
                        assert(done.push(row[x as int]) =~= prefix + seq![m.grid_frame(i as int)]
                            + m.grid_pixel_rows(i as int, y as nat) + row.take(x + 1));
                    }
                }
                proof {
                    let row = m.grid_pixel_row(i as int, y as int);
                    assert(row.take(fw as int) =~= row);
                    assert(prefix + seq![m.grid_frame(i as int)] + m.grid_pixel_rows(i as int, y as nat) + row
                        =~= prefix + seq![m.grid_frame(i as int)] + m.grid_pixel_rows(i as int, (y + 1) as nat));
                }
            }
            proof {
                assert(prefix + seq![m.grid_frame(i as int)] + m.grid_pixel_rows(i as int, fh as nat)
                    =~= m.grid_strokes((i + 1) as nat));
            }
        }
    }

    /// Draws the editor: one block per pixel of the selected glyph, with
    /// grid lines, and a frame round the hovered cell.
    fn render_glyph_editor(&mut self, Ghost(m): Ghost<StateModel>)
        requires
            old(self).inv(),
            old(self)@ == (StateModel { fb: old(self)@.fb, ..m }),
            m.fb.width == old(self)@.fb.width,
            m.fb.height == old(self)@.fb.height,
            m.render_ok(),
        ensures
            final(self).inv(),
            final(self)@ == (StateModel { fb: final(self)@.fb, ..m }),
            final(self).fb.shows(old(self).fb, m.editor_strokes()),
    {
        proof {
            self.font.lemma_wf();
            lemma_shows_nothing(self.fb);
        }
        let sel = self.get_selected_index();
        let fh = self.font.height() as u32;
        let fw = self.font.width() as u32;
        assert(m.editor_rows(0) =~= Seq::<Stroke>::empty());
        for cell_y in 0..fh
            invariant
                m.font.wf(),
                m.render_ok(),
                sel == m.selected_index(),
                fw == m.font.width,
                fh == m.font.height,
                self.inv(),
                self@ == (StateModel { fb: self@.fb, ..m }),
                self@.fb.width == m.fb.width,
                self@.fb.height == m.fb.height,
                self.fb.shows(old(self).fb, m.editor_rows(cell_y as nat)),
        {
            assert(m.editor_rows(cell_y as nat) + m.editor_row(cell_y as int, 0) =~= m.editor_rows(
                cell_y as nat,
            ));
            for cell_x in 0..fw
                invariant
                    m.font.wf(),
                    m.render_ok(),
                    sel == m.selected_index(),
                    fw == m.font.width,
                    fh == m.font.height,
                    cell_y < fh,
                    self.inv(),
                    self@ == (StateModel { fb: self@.fb, ..m }),
                    self@.fb.width == m.fb.width,
                    self@.fb.height == m.fb.height,
                    self.fb.shows(old(self).fb, m.editor_rows(cell_y as nat) + m.editor_row(cell_y as int, cell_x as nat)),
            {
                let filled = self.font.glyph_bit(sel, cell_x as usize, cell_y as usize);
                let color = if filled {
                    0xffffff
                } else {
                    0x111111
                };
                let x = self.editor_offs_x + cell_x * EDITOR_CELL_SIZE;
                let y = self.editor_offs_y + cell_y * EDITOR_CELL_SIZE;
                let ghost done = m.editor_rows(cell_y as nat) + m.editor_row(cell_y as int, cell_x as nat);
                let ghost cell = m.editor_cell(cell_x as int, cell_y as int);
                let ghost before = self.fb;
                self.fb.draw_square(x, y, EDITOR_CELL_SIZE, color);
                proof {
                    lemma_shows_push(old(self).fb, before, self.fb, done, cell[0]);
                }
                let ghost middle = self.fb;
                self.fb.draw_square_hollow(x, y, EDITOR_CELL_SIZE + 1, 0x222222);
                proof {
                    lemma_shows_push(old(self).fb, middle, self.fb, done.push(cell[0]), cell[1]);
                    assert(done.push(cell[0]).push(cell[1]) =~= m.editor_rows(cell_y as nat)
                        + m.editor_row(cell_y as int, (cell_x + 1) as nat));
                }
            }
            proof {
                assert(m.editor_rows(cell_y as nat) + m.editor_row(cell_y as int, fw as nat)
                    =~= m.editor_rows((cell_y + 1) as nat));
            }
        }
        if self.inside_editor_area {
            let (hov_x, hov_y) = self.editor_hov;
            let x = self.editor_offs_x as i32 + hov_x * EDITOR_CELL_SIZE as i32;
            let y = self.editor_offs_y as i32 + hov_y * EDITOR_CELL_SIZE as i32;
            let ghost before = self.fb;
            self.fb.draw_square_hollow(x as u32, y as u32, EDITOR_CELL_SIZE + 1, 0x00aa00);
            proof {
                let frame = m.editor_strokes()[m.editor_rows(fh as nat).len() as int];
                lemma_shows_push(old(self).fb, before, self.fb, m.editor_rows(fh as nat), frame);
                assert((m.editor_rows(fh as nat)).push(frame) =~= m.editor_strokes());
            }
        } else {
            assert(m.editor_rows(fh as nat) =~= m.editor_strokes());
        }
    }

    /// The PSF1 file that stores the font.
    pub fn construct_font_file(&self) -> (file: Vec<u8>)
        requires
            self.inv(),
        ensures
            file@ == psf1_file(self@.font),
    {
        proof {
            self.font.lemma_wf();
        }
        let mut file: Vec<u8> = vec![crate::font::PSF1_MAGIC0, crate::font::PSF1_MAGIC1, 0, self.font.height()];
        let ghost header = seq![crate::font::PSF1_MAGIC0, crate::font::PSF1_MAGIC1, 0u8, self@.font.height as u8];
        let ghost glyphs = self@.font.glyphs;
        assert(file@ =~= header + glyph_table(glyphs.take(0)));
        let n = self.font.num_glyphs();
        for i in 0..n
            invariant
                self.inv(),
                n == glyphs.len(),
                glyphs == self@.font.glyphs,
                header == seq![crate::font::PSF1_MAGIC0, crate::font::PSF1_MAGIC1, 0u8, self@.font.height as u8],
                file@ == header + glyph_table(glyphs.take(i as int)),
        {
            let rows = self.font.glyph_rows(i);
            let m = rows.len();
            for j in 0..m
                invariant
                    m == rows@.len(),
                    rows@ == glyph_bytes(glyphs[i as int]),
                    file@ == header + glyph_table(glyphs.take(i as int)) + rows@.take(j as int),
            {
                file.push(rows[j]);
                proof {
                    assert(rows@.take(j + 1) =~= rows@.take(j as int).push(rows@[j as int]));
                    assert(file@ =~= header + glyph_table(glyphs.take(i as int)) + rows@.take(j + 1));
                }
            }
            proof {
                assert(glyphs.take(i + 1).drop_last() =~= glyphs.take(i as int));
                assert(glyphs.take(i + 1).last() == glyphs[i as int]);
                assert(rows@.take(m as int) =~= rows@);
                assert(file@ =~= header + glyph_table(glyphs.take(i + 1)));
            }
        }
        proof {
            assert(glyphs.take(n as int) =~= glyphs);
        }
        file
    }

    /// Clears glyphs 128 to 255, the extended ASCII range.
    fn clear_extend_ascii(&mut self)
        requires
            old(self).inv(),
        ensures
            final(self).inv(),
            final(self)@ == (StateModel { font: old(self)@.font_without_extended_ascii(), ..old(self)@ }),
    {
        proof {
            self.font.lemma_wf();
            assert(self@.font.glyphs =~= Seq::new(
                old(self)@.font.glyphs.len(),
                |k: int|
                    if 128 <= k < 128 {
                        BitGrid::blank(old(self)@.font.width, old(self)@.font.height)
                    } else {
                        old(self)@.font.glyphs[k]
                    },
            ));
        }
        for i in 128..256usize
            invariant
                self.inv(),
                old(self).inv(),
                self@ == (StateModel { font: self@.font, ..old(self)@ }),
                self@.font == (FontModel {
                    glyphs: Seq::new(
                        old(self)@.font.glyphs.len(),
                        |k: int|
                            if 128 <= k < i {
                                BitGrid::blank(old(self)@.font.width, old(self)@.font.height)
                            } else {
                                old(self)@.font.glyphs[k]
                            },
                    ),
                    ..old(self)@.font
                }),
        {
            proof {
                self.font.lemma_wf();
            }
            self.font.clear_glyph(i);
            proof {
                assert(self@.font.glyphs =~= Seq::new(
                    old(self)@.font.glyphs.len(),
                    |k: int|
                        if 128 <= k < i + 1 {
                            BitGrid::blank(old(self)@.font.width, old(self)@.font.height)
                        } else {
                            old(self)@.font.glyphs[k]
                        },
                ));
            }
        }
        proof {
            assert(self@.font.glyphs =~= old(self)@.font_without_extended_ascii().glyphs);
        }
    }

    /// Asks to store the font as the next numbered file, and counts the save.
    fn save_file(&mut self) -> (request: SaveRequest)
        requires
            old(self).inv(),
            old(self)@.saves_counter < u32::MAX,
        ensures
            final(self).inv(),
            final(self)@ == (StateModel { saves_counter: (old(self)@.saves_counter + 1) as u32, ..old(self)@ }),
            request.file_name@ == save_file_name(old(self)@.saves_counter),
            request.contents@ == psf1_file(old(self)@.font),
    {
        let mut file_name = String::from_str("saved_font");
        append_decimal_padded(&mut file_name, self.saves_counter as u64, 3);
        file_name.append(".psf");
        self.saves_counter += 1;
        let contents = self.construct_font_file();
        proof {
            assert(file_name@ =~= save_file_name(old(self)@.saves_counter));
        }
        SaveRequest { file_name, contents }
    }

    /// Whether locating the pointer at (`x`, `y`) stays in range.
    pub fn hover_ok_at(&self, x: i32, y: i32) -> (ok: bool)
        requires
            self.inv(),
        ensures
            ok == self@.hover_ok(x, y),
    {
        proof {
            self.font.lemma_wf();
        }
        let fw = self.font.width() as i32;
        let fh = self.font.height() as i32;
        if fh == 0 || x < i32::MIN + 3 || y < i32::MIN + 3 {
            return false;
        }
        let gx = (x - GRID_OFFS_X as i32) / 2 / fw;
        let gy = (y - GRID_OFFS_Y as i32) / 2 / fh;
        if gx < 16 && gy < 16 {
            return true;
        }
        x as i64 - self.editor_offs_x as i64 >= i32::MIN as i64 && y as i64 - self.editor_offs_y as i64
            >= i32::MIN as i64
    }

    /// Whether `events` can handle `event` in this state (see
    /// [`StateModel::accepts`]).
    pub fn accepts_event(&self, event: &Event) -> (ok: bool)
        requires
            self.inv(),
        ensures
            ok == self@.accepts(*event),
    {
        proof {
            self.font.lemma_wf();
        }
        let n = self.font.num_glyphs() as u64;
        let fh = self.font.height();
        match event {
            Event::KeyPress(KeyButton::Minus) => fh > 0,
            Event::KeyPress(KeyButton::Character(c)) => *c != 'w' || self.saves_counter < u32::MAX,
            Event::MouseMotion(x, y) => {
                if !self.hover_ok_at(*x, *y) {
                    return false;
                }
                if !self.drawing {
                    return true;
                }
                let hov_y = match self.locate(*x, *y) {
                    Hover::Editor(_, cy) => cy,
                    _ => self.editor_hov.1,
                };
                let (sel_x, sel_y) = self.glyph_sel;
                (sel_y as u64) * 16 + (sel_x as u64) < n && (hov_y as i64) < (fh as i64)
            },
            Event::MousePress(button, x, y) => {
                if !self.hover_ok_at(*x, *y) {
                    return false;
                }
                match self.locate(*x, *y) {
                    Hover::Glyph(gx, gy) => {
                        let index = (gy as u64) * 16 + (gx as u64);
                        index <= u32::MAX as u64 && (*button != MouseButton::Right || index < n)
                    },
                    Hover::Editor(_, _) => {
                        let (sel_x, sel_y) = self.glyph_sel;
                        (sel_y as u64) * 16 + (sel_x as u64) < n
                    },
                    Hover::Outside => true,
                }
            },
            _ => true,
        }
    }

    /// Whether `render` can draw a frame in this state (see
    /// [`StateModel::render_ok`]).
    pub fn can_render(&self) -> (ok: bool)
        requires
            self.inv(),
        ensures
            ok == self@.render_ok(),
    {
        proof {
            self.font.lemma_wf();
        }
        let n = self.font.num_glyphs() as u64;
        let (sel_x, sel_y) = self.glyph_sel;
        let valid = (sel_y as u64) * 16 + (sel_x as u64) < n;
        if !self.inside_editor_area {
            return valid;
        }
        let (hov_x, hov_y) = self.editor_hov;
        valid && self.editor_offs_x as i64 + hov_x as i64 * 16 <= i32::MAX as i64 && self.editor_offs_y
            as i64 + hov_y as i64 * 16 <= i32::MAX as i64
    }

    /// What is under the pointer at (`x`, `y`).
    fn locate(&self, x: i32, y: i32) -> (hover: Hover)
        requires
            self.inv(),
            self@.hover_ok(x, y),
        ensures
            ({
                let h = self@.hovered(x, y);
                &&& hover matches Hover::Glyph(gx, gy) ==> h.inside_glyphs_area && h.glyph_hov == (gx, gy)
                &&& hover matches Hover::Editor(cx, cy) ==> !h.inside_glyphs_area && h.inside_editor_area
                    && h.editor_hov == (cx, cy)
                &&& hover is Outside ==> !h.inside_glyphs_area && !h.inside_editor_area
            }),
    {
        proof {
            self.font.lemma_wf();
        }
        let fw = self.font.width() as i32;
        let fh = self.font.height() as i32;
        let gx = (x - GRID_OFFS_X as i32) / 2 / fw;
        let gy = (y - GRID_OFFS_Y as i32) / 2 / fh;
        if gx < 16 && gy < 16 {
            return Hover::Glyph(gx as u32, gy as u32);
        }
        let cx = (x - self.editor_offs_x as i32) / EDITOR_CELL_SIZE as i32;
        let cy = (y - self.editor_offs_y as i32) / EDITOR_CELL_SIZE as i32;
        if cx >= 0 && cx < fw && cy >= 0 && cy < fh {
            return Hover::Editor(cx, cy);
        }
        Hover::Outside
    }

    /// Locates the pointer at window coordinates (`x`, `y`): over the glyph
    /// grid it hovers a grid cell, else over the editor an editor cell.
    fn detect_mouse_hover(&mut self, x: i32, y: i32)
        requires
            old(self).inv(),
            old(self)@.hover_ok(x, y),
        ensures
            final(self).inv(),
            final(self)@ == old(self)@.hovered(x, y),
    {
        match self.locate(x, y) {
            Hover::Glyph(gx, gy) => {
                self.glyph_hov = (gx, gy);
                self.inside_glyphs_area = true;
            },
            Hover::Editor(cx, cy) => {
                self.inside_glyphs_area = false;
                self.editor_hov = (cx, cy);
                self.inside_editor_area = true;
            },
            Hover::Outside => {
                self.inside_glyphs_area = false;
                self.inside_editor_area = false;
            },
        }
    }
}

/// Locating the pointer changes neither the font, nor the selection, nor
/// whether the editor is drawing.
pub proof fn lemma_hover_keeps_content(m: StateModel, x: i32, y: i32)
    ensures
        m.hovered(x, y).font == m.font,
        m.hovered(x, y).glyph_sel == m.glyph_sel,
        m.hovered(x, y).drawing == m.drawing,
        m.hovered(x, y).saves_counter == m.saves_counter,
{
}

/// After the mouse button is released, moving the pointer leaves the font
/// as it was.
pub proof fn lemma_release_then_move_keeps_font(m: StateModel, a: i32, b: i32, x: i32, y: i32)
    ensures
        m.step(Event::MouseRelease(a, b)).step(Event::MouseMotion(x, y)).font == m.font,
{
}

/// A left press on an editor cell, when not drawing yet, starts drawing
/// that sets bits and sets the selected glyph's pixel under the pointer;
/// any other button starts drawing that clears bits and clears it.
pub proof fn lemma_press_in_editor_paints(m: StateModel, button: MouseButton, x: i32, y: i32)
    requires
        m.wf(),
        m.accepts(Event::MousePress(button, x, y)),
        !m.drawing,
        !m.hovered(x, y).inside_glyphs_area,
        m.hovered(x, y).inside_editor_area,
    ensures
        ({
            let after = m.step(Event::MousePress(button, x, y));
            let h = m.hovered(x, y);
            &&& after.drawing
            &&& after.drawing_sets_bits_to == (button == MouseButton::Left)
            &&& after.font.glyphs[m.selected_index()].get(h.editor_hov.0 as int, h.editor_hov.1 as int)
                == (button == MouseButton::Left)
        }),
{
    let h = m.hovered(x, y);
    let i = m.selected_index();
    let g = m.font.glyphs[i];
    assert(g.wf());
    crate::bitmatrix::lemma_read_after_write(
        g,
        h.editor_hov.0 as int,
        h.editor_hov.1 as int,
        button == MouseButton::Left,
        h.editor_hov.0 as int,
        h.editor_hov.1 as int,
    );
}

/// Clearing the extended ASCII glyphs keeps glyphs 0 to 127 and the
/// glyphs from 256 on, and doing it twice does no more than once.
pub proof fn lemma_clear_extended_ascii(m: StateModel)
    ensures
        forall|i: int|
            0 <= i < m.font.glyphs.len() && !(128 <= i < 256) ==> #[trigger] m.step(
                Event::KeyPress(KeyButton::Character('c')),
            ).font.glyphs[i] == m.font.glyphs[i],
        m.step(Event::KeyPress(KeyButton::Character('c'))).step(
            Event::KeyPress(KeyButton::Character('c')),
        ) == m.step(Event::KeyPress(KeyButton::Character('c'))),
{
    let once = m.step(Event::KeyPress(KeyButton::Character('c')));
    let twice = once.step(Event::KeyPress(KeyButton::Character('c')));
    assert(twice.font.glyphs =~= once.font.glyphs);
}

/// Shortening the font keeps the editor centred: its top edge moves down
/// by half a cell, and its left edge stays.
pub proof fn lemma_shorten_recentres(m: StateModel)
    requires
        m.wf(),
        m.font.height > 0,
    ensures
        m.step(Event::KeyPress(KeyButton::Minus)).editor_offs_y == m.editor_offs_y + 8,
        m.step(Event::KeyPress(KeyButton::Minus)).editor_offs_x == m.editor_offs_x,
        m.step(Event::KeyPress(KeyButton::Minus)).font.height == m.font.height - 1,
{
}

/// Saving stores a file that reads back as the font's first 256 glyphs, at
/// the font's size.
pub proof fn lemma_saved_file_reads_back(m: StateModel)
    requires
        m.wf(),
    ensures
        psf1_magic(psf1_file(m.font)),
        psf1_complete(psf1_file(m.font)),
        psf1_font(psf1_file(m.font)).height == m.font.height,
        psf1_font(psf1_file(m.font)).glyphs == m.font.glyphs.take(256),
{
    crate::font::lemma_store_then_load(m.font);
}

/// Handling an event keeps the model well formed.
pub proof fn lemma_step_keeps_wf(m: StateModel, event: Event)
    requires
        m.wf(),
        m.accepts(event),
    ensures
        m.step(event).wf(),
{
    let fw = m.font.width;
    let fh = m.font.height;
    match event {
        Event::KeyPress(KeyButton::Minus) => {
            let f = m.font_shortened();
            assert forall|i: int| 0 <= i < f.glyphs.len() implies {
                &&& (#[trigger] f.glyphs[i]).wf()
                &&& f.glyphs[i].width == f.width
                &&& f.glyphs[i].height() == f.height
            } by {
                let g = m.font.glyphs[i];
                assert(g.wf());
                assert forall|r: int| 0 <= r < f.glyphs[i].rows.len() implies (#[trigger] f.glyphs[i].rows[r]).len()
                    == f.glyphs[i].width by {
                    assert(f.glyphs[i].rows[r] == g.rows[r + 1]);
                }
            }
        },
        Event::KeyPress(KeyButton::Character(c)) => {
            if c == 'c' {
                let f = m.font_without_extended_ascii();
                assert forall|i: int| 0 <= i < f.glyphs.len() implies {
                    &&& (#[trigger] f.glyphs[i]).wf()
                    &&& f.glyphs[i].width == f.width
                    &&& f.glyphs[i].height() == f.height
                } by {
                    if !(128 <= i < 256) {
                        assert(m.font.glyphs[i].wf());
                    }
                }
            }
        },
        Event::MouseMotion(x, y) => {
            let h = m.hovered(x, y);
            if h.drawing {
                lemma_hovered_bit_keeps_wf(h, h.drawing_sets_bits_to);
            }
        },
        Event::MousePress(button, x, y) => {
            let h = m.hovered(x, y);
            if h.inside_glyphs_area {
                let sel = StateModel { glyph_sel: h.glyph_hov, ..h };
                if button == MouseButton::Right {
                    let f = sel.font_with_glyph_cleared(sel.selected_index());
                    assert forall|i: int| 0 <= i < f.glyphs.len() implies {
                        &&& (#[trigger] f.glyphs[i]).wf()
                        &&& f.glyphs[i].width == f.width
                        &&& f.glyphs[i].height() == f.height
                    } by {
                        if i != sel.selected_index() {
                            assert(m.font.glyphs[i].wf());
                        }
                    }
                }
            } else if h.inside_editor_area {
                let d = if !h.drawing {
                    StateModel { drawing: true, drawing_sets_bits_to: button == MouseButton::Left, ..h }
                } else {
                    h
                };
                lemma_hovered_bit_keeps_wf(d, d.drawing_sets_bits_to);
            }
        },
        _ => {},
    }
}

/// Writing the hovered editor pixel of the selected glyph keeps the font
/// well formed.
proof fn lemma_hovered_bit_keeps_wf(m: StateModel, val: bool)
    requires
        m.font.wf(),
        m.selection_valid(),
        0 <= m.editor_hov.0 < m.font.width,
        0 <= m.editor_hov.1 < m.font.height,
    ensures
        m.font_with_hovered_bit(val).wf(),
{
    let f = m.font_with_hovered_bit(val);
    let k = m.selected_index();
    let g = m.font.glyphs[k];
    assert(g.wf());
    crate::bitmatrix::lemma_read_after_write(g, m.editor_hov.0 as int, m.editor_hov.1 as int, val, 0, 0);
    assert forall|i: int| 0 <= i < f.glyphs.len() implies {
        &&& (#[trigger] f.glyphs[i]).wf()
        &&& f.glyphs[i].width == f.width
        &&& f.glyphs[i].height() == f.height
    } by {
        if i != k {
            assert(m.font.glyphs[i].wf());
        }
    }
}

/// Halving and then dividing by `size` finds the cell, `2 * size` wide,
/// that a nonnegative offset falls in.
proof fn lemma_cell_of_offset(a: int, size: int, cell: int)
    requires
        size > 0,
        cell >= 0,
        cell * 2 * size <= a < (cell + 1) * 2 * size,
    ensures
        tdiv(tdiv(a, 2), size) == cell,
{
    let r = a - cell * 2 * size;
    assert(0 <= r < 2 * size) by (nonlinear_arith)
        requires
            r == a - cell * 2 * size,
            cell * 2 * size <= a < (cell + 1) * 2 * size,
    ;
    vstd::arithmetic::div_mod::lemma_fundamental_div_mod(r, 2);
    let half = cell * size + r / 2;
    assert(a == half * 2 + r % 2) by (nonlinear_arith)
        requires
            r == a - cell * 2 * size,
            half == cell * size + r / 2,
            r == 2 * (r / 2) + r % 2,
    ;
    vstd::arithmetic::div_mod::lemma_fundamental_div_mod_converse(a, 2, half, r % 2);
    assert(0 <= r / 2 < size);
    assert(half == cell * size + r / 2);
    vstd::arithmetic::div_mod::lemma_fundamental_div_mod_converse(half, size, cell, r / 2);
    assert(a >= 0) by (nonlinear_arith)
        requires
            cell >= 0,
            size > 0,
            cell * 2 * size <= a,
    ;
}

/// The pointer anywhere over the enlarged picture of the glyph in grid
/// column `gx` and row `gy` hovers that glyph.
pub proof fn lemma_pointer_over_glyph_hovers_it(m: StateModel, gx: int, gy: int, x: i32, y: i32)
    requires
        m.font.width > 0,
        m.font.height > 0,
        0 <= gx < 16,
        0 <= gy < 16,
        GRID_OFFS_X + gx * 2 * m.font.width <= x < GRID_OFFS_X + (gx + 1) * 2 * m.font.width,
        GRID_OFFS_Y + gy * 2 * m.font.height <= y < GRID_OFFS_Y + (gy + 1) * 2 * m.font.height,
    ensures
        m.hovered(x, y).inside_glyphs_area,
        m.hovered(x, y).glyph_hov == (gx as u32, gy as u32),
{
    lemma_cell_of_offset(x - GRID_OFFS_X, m.font.width as int, gx);
    lemma_cell_of_offset(y - GRID_OFFS_Y, m.font.height as int, gy);
}

/// The pointer anywhere over editor cell (`cx`, `cy`), away from the glyph
/// grid, hovers that cell.
pub proof fn lemma_pointer_over_editor_cell_hovers_it(m: StateModel, cx: int, cy: int, x: i32, y: i32)
    requires
        0 <= cx < m.font.width,
        0 <= cy < m.font.height,
        m.editor_offs_x + cx * EDITOR_CELL_SIZE <= x < m.editor_offs_x + (cx + 1) * EDITOR_CELL_SIZE,
        m.editor_offs_y + cy * EDITOR_CELL_SIZE <= y < m.editor_offs_y + (cy + 1) * EDITOR_CELL_SIZE,
        !(grid_cell(x as int, GRID_OFFS_X as int, m.font.width as int) < 16 && grid_cell(
            y as int,
            GRID_OFFS_Y as int,
            m.font.height as int,
        ) < 16),
    ensures
        !m.hovered(x, y).inside_glyphs_area,
        m.hovered(x, y).inside_editor_area,
        m.hovered(x, y).editor_hov == (cx as i32, cy as i32),
{
    vstd::arithmetic::div_mod::lemma_fundamental_div_mod_converse(
        x - m.editor_offs_x,
        16,
        cx,
        x - m.editor_offs_x - cx * 16,
    );
    vstd::arithmetic::div_mod::lemma_fundamental_div_mod_converse(
        y - m.editor_offs_y,
        16,
        cy,
        y - m.editor_offs_y - cy * 16,
    );
}

/// The state after handling `events` in order.
pub open spec fn run(m: StateModel, events: Seq<Event>) -> StateModel
    decreases events.len(),
{
    if events.len() == 0 {
        m
    } else {
        run(m, events.drop_last()).step(events.last())
    }
}

/// The press at (`x`, `y`) lands on the editor, not on the glyph grid.
pub open spec fn hits_editor(m: StateModel, x: i32, y: i32) -> bool {
    !m.hovered(x, y).inside_glyphs_area && m.hovered(x, y).inside_editor_area
}

/// How an event changes drawing: a release stops it; a press on the editor
/// starts it, and when it was not drawing yet the press's button sets the
/// mode (set bits with the left button, clear them with the others);
/// nothing else changes either.
pub proof fn lemma_drawing_flag(m: StateModel, event: Event)
    ensures
        m.step(event).drawing == match event {
            Event::MouseRelease(_, _) => false,
            Event::MousePress(_, x, y) => hits_editor(m, x, y) || m.drawing,
            _ => m.drawing,
        },
        m.step(event).drawing_sets_bits_to == match event {
            Event::MousePress(button, x, y) => if hits_editor(m, x, y) && !m.drawing {
                button == MouseButton::Left
            } else {
                m.drawing_sets_bits_to
            },
            _ => m.drawing_sets_bits_to,
        },
{
}

/// From a state that is not drawing, a press on the editor with `button`
/// followed by any events without a release leaves the editor drawing in
/// the mode that `button` chose.
pub proof fn lemma_drawing_mode_persists(m: StateModel, events: Seq<Event>, button: MouseButton, x: i32, y: i32)
    requires
        !m.drawing,
        events.len() >= 1,
        events[0] == Event::MousePress(button, x, y),
        hits_editor(m, x, y),
        forall|k: int| 1 <= k < events.len() ==> !(#[trigger] events[k] is MouseRelease),
    ensures
        run(m, events).drawing,
        run(m, events).drawing_sets_bits_to == (button == MouseButton::Left),
    decreases events.len(),
{
    if events.len() == 1 {
        assert(events.drop_last() =~= Seq::<Event>::empty());
        assert(run(m, events.drop_last()) == m);
        assert(events.last() == events[0]);
        assert(run(m, events) == m.step(events[0]));
        lemma_drawing_flag(m, events[0]);
    } else {
        let init = events.drop_last();
        assert(init[0] == events[0]);
        assert forall|k: int| 1 <= k < init.len() implies !(#[trigger] init[k] is MouseRelease) by {
            assert(init[k] == events[k]);
        }
        lemma_drawing_mode_persists(m, init, button, x, y);
        assert(!(events[events.len() - 1] is MouseRelease));
        assert(run(m, events) == run(m, init).step(events.last()));
        lemma_drawing_flag(run(m, init), events.last());
    }
}

/// A motion while drawing, to an editor cell, sets that cell of the
/// selected glyph to the drawing mode and leaves every other pixel of every
/// glyph as it was.
pub proof fn lemma_motion_while_drawing_paints(m: StateModel, x: i32, y: i32)
    requires
        m.wf(),
        m.drawing,
        m.accepts(Event::MouseMotion(x, y)),
        hits_editor(m, x, y),
    ensures
        ({
            let after = m.step(Event::MouseMotion(x, y));
            let (cx, cy) = m.hovered(x, y).editor_hov;
            let k = m.selected_index();
            &&& after.font.glyphs.len() == m.font.glyphs.len()
            &&& after.font.glyphs[k].get(cx as int, cy as int) == m.drawing_sets_bits_to
            &&& forall|i: int, px: int, py: int|
                0 <= i < m.font.glyphs.len() && m.font.glyphs[i].in_bounds(px, py) && !(i == k && px == cx
                    && py == cy) ==> #[trigger] after.font.glyphs[i].get(px, py) == m.font.glyphs[i].get(
                    px,
                    py,
                )
        }),
{
    let h = m.hovered(x, y);
    let k = m.selected_index();
    let g = m.font.glyphs[k];
    assert(g.wf());
    let (cx, cy) = h.editor_hov;
    assert forall|i: int, px: int, py: int|
        0 <= i < m.font.glyphs.len() && m.font.glyphs[i].in_bounds(px, py) implies #[trigger] m.step(
        Event::MouseMotion(x, y),
    ).font.glyphs[i].get(px, py) == if i == k && px == cx && py == cy {
        m.drawing_sets_bits_to
    } else {
        m.font.glyphs[i].get(px, py)
    } by {
        if i == k {
            crate::bitmatrix::lemma_read_after_write(g, cx as int, cy as int, m.drawing_sets_bits_to, px, py);
        }
    }
    crate::bitmatrix::lemma_read_after_write(g, cx as int, cy as int, m.drawing_sets_bits_to, cx as int, cy as int);
}

/// A motion while not drawing leaves the font as it was.
pub proof fn lemma_motion_without_drawing_keeps_font(m: StateModel, x: i32, y: i32)
    requires
        !m.drawing,
    ensures
        m.step(Event::MouseMotion(x, y)).font == m.font,
{
}

/// Two models that differ only in their framebuffers and message queues
/// have the same display list.
pub proof fn lemma_display_list_ignores_buffer(m1: StateModel, m2: StateModel)
    requires
        m1 == (StateModel { fb: m1.fb, messages: m1.messages, ..m2 }),
    ensures
        m1.display_list() == m2.display_list(),
{
    lemma_grid_strokes_ignore_buffer(m1, m2, m1.font.glyphs.len());
    lemma_editor_rows_ignore_buffer(m1, m2, m1.font.height);
}

proof fn lemma_grid_strokes_ignore_buffer(m1: StateModel, m2: StateModel, n: nat)
    requires
        m1 == (StateModel { fb: m1.fb, messages: m1.messages, ..m2 }),
    ensures
        m1.grid_strokes(n) == m2.grid_strokes(n),
    decreases n,
{
    if n > 0 {
        lemma_grid_strokes_ignore_buffer(m1, m2, (n - 1) as nat);
        lemma_grid_pixel_rows_ignore_buffer(m1, m2, n - 1, m1.font.height);
    }
}

proof fn lemma_grid_pixel_rows_ignore_buffer(m1: StateModel, m2: StateModel, i: int, k: nat)
    requires
        m1 == (StateModel { fb: m1.fb, messages: m1.messages, ..m2 }),
    ensures
        m1.grid_pixel_rows(i, k) == m2.grid_pixel_rows(i, k),
    decreases k,
{
    if k > 0 {
        lemma_grid_pixel_rows_ignore_buffer(m1, m2, i, (k - 1) as nat);
        assert(m1.grid_pixel_row(i, k - 1) =~= m2.grid_pixel_row(i, k - 1));
    }
}

proof fn lemma_editor_rows_ignore_buffer(m1: StateModel, m2: StateModel, k: nat)
    requires
        m1 == (StateModel { fb: m1.fb, messages: m1.messages, ..m2 }),
    ensures
        m1.editor_rows(k) == m2.editor_rows(k),
    decreases k,
{
    if k > 0 {
        lemma_editor_rows_ignore_buffer(m1, m2, (k - 1) as nat);
        lemma_editor_row_ignores_buffer(m1, m2, k - 1, m1.font.width);
    }
}

proof fn lemma_editor_row_ignores_buffer(m1: StateModel, m2: StateModel, cy: int, k: nat)
    requires
        m1 == (StateModel { fb: m1.fb, messages: m1.messages, ..m2 }),
    ensures
        m1.editor_row(cy, k) == m2.editor_row(cy, k),
    decreases k,
{
    if k > 0 {
        lemma_editor_row_ignores_buffer(m1, m2, cy, (k - 1) as nat);
    }
}

/// A frame does not depend on what the framebuffer held before: two
/// models that differ only in their framebuffers' contents and their
/// message queues draw the same pixels. In particular, drawing a second
/// frame from the same model gives the same pixels again.
pub proof fn lemma_frame_independent_of_previous(
    m1: StateModel,
    m2: StateModel,
    f1: Framebuffer,
    f2: Framebuffer,
)
    requires
        m1 == (StateModel { fb: m1.fb, messages: m1.messages, ..m2 }),
        f1.width == f2.width,
        f1.height == f2.height,
        f1.draws(m1.display_list()),
        f2.draws(m2.display_list()),
    ensures
        f1.pixels@ == f2.pixels@,
{
    lemma_display_list_ignores_buffer(m1, m2);
    crate::framebuffer::lemma_draws_unique(f1, f2, m1.display_list());
}

/// Distinct save counters give distinct file names, so no save overwrites
/// another.
pub proof fn lemma_save_names_distinct(a: u32, b: u32)
    requires
        save_file_name(a) == save_file_name(b),
    ensures
        a == b,
{
    reveal_strlit("saved_font");
    reveal_strlit(".psf");
    let pa = zero_padded(decimal(a as nat), 3);
    let pb = zero_padded(decimal(b as nat), 3);
    let na = save_file_name(a);
    let nb = save_file_name(b);
    assert(na.len() == 10 + pa.len() + 4);
    assert(nb.len() == 10 + pb.len() + 4);
    assert(na.subrange(10, na.len() - 4) =~= pa);
    assert(nb.subrange(10, nb.len() - 4) =~= pb);
    crate::text::lemma_padded_decimal_injective(a as nat, b as nat, 3);
}

/// Distinct glyph indices give distinct window titles.
pub proof fn lemma_titles_distinct(a: nat, b: nat)
    requires
        window_title(a) == window_title(b),
    ensures
        a == b,
{
    reveal_strlit("psfe | index = ");
    let ta = window_title(a);
    let tb = window_title(b);
    assert(ta.subrange(15, ta.len() as int) =~= decimal(a));
    assert(tb.subrange(15, tb.len() as int) =~= decimal(b));
    crate::text::lemma_decimal_reads_back(a);
    crate::text::lemma_decimal_reads_back(b);
}

/// A nonnegative offset of at least `16 * size` halves and divides by
/// `size` to at least 16.
proof fn lemma_cell_at_least_16(a: int, size: int)
    requires
        size > 0,
        a >= 32 * size,
    ensures
        tdiv(tdiv(a, 2), size) >= 16,
{
    assert(a / 2 >= 16 * size) by (nonlinear_arith)
        requires
            a >= 32 * size,
    ;
    vstd::arithmetic::div_mod::lemma_div_is_ordered(16 * size, a / 2, size);
    vstd::arithmetic::div_mod::lemma_fundamental_div_mod_converse(16 * size, size, 16, 0);
}

/// An offset from the editor's edge outside `0 .. 16 * size` (allowing
/// for division rounding towards zero, below `-15`) lies in no editor cell.
proof fn lemma_editor_cell_outside(d: int, size: int)
    requires
        size > 0,
        d < -15 || d >= 16 * size,
    ensures
        tdiv(d, EDITOR_CELL_SIZE as int) < 0 || tdiv(d, EDITOR_CELL_SIZE as int) >= size,
{
    if d >= 16 * size {
        assert(d / 16 >= size) by (nonlinear_arith)
            requires
                d >= 16 * size,
        ;
    } else {
        assert((-d) / 16 >= 1) by (nonlinear_arith)
            requires
                -d >= 16,
        ;
    }
}

/// A pointer away from both the glyph grid and the editor hovers neither,
/// so a press there changes neither the font nor drawing.
pub proof fn lemma_pointer_away_hovers_nothing(m: StateModel, button: MouseButton, x: i32, y: i32)
    requires
        m.font.width > 0,
        m.font.height > 0,
        x >= GRID_OFFS_X + 32 * m.font.width || y >= GRID_OFFS_Y + 32 * m.font.height,
        x < m.editor_offs_x - 15 || x >= m.editor_offs_x + 16 * m.font.width || y < m.editor_offs_y
            - 15 || y >= m.editor_offs_y + 16 * m.font.height,
    ensures
        !m.hovered(x, y).inside_glyphs_area,
        !m.hovered(x, y).inside_editor_area,
        m.step(Event::MousePress(button, x, y)).font == m.font,
        m.step(Event::MousePress(button, x, y)).drawing == m.drawing,
        m.step(Event::MousePress(button, x, y)).drawing_sets_bits_to == m.drawing_sets_bits_to,
        m.step(Event::MousePress(button, x, y)).glyph_sel == m.glyph_sel,
{
    let fw = m.font.width as int;
    let fh = m.font.height as int;
    if x >= GRID_OFFS_X + 32 * fw {
        lemma_cell_at_least_16(x - GRID_OFFS_X, fw);
    } else {
        lemma_cell_at_least_16(y - GRID_OFFS_Y, fh);
    }
    if x < m.editor_offs_x - 15 || x >= m.editor_offs_x + 16 * fw {
        lemma_editor_cell_outside(x - m.editor_offs_x, fw);
    } else {
        lemma_editor_cell_outside(y - m.editor_offs_y, fh);
    }
}

} // verus!
