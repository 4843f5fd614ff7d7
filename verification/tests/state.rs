use psfe::rendering_backend::{Event, KeyButton, MouseButton};
use psfe::state::{Message, State};

const W: u32 = 1024;
const H: u32 = 768;

/// A 16-row PSF1 font whose glyph `i` has every row equal to `i`.
fn font_file() -> Vec<u8> {
    let mut file = vec![0x36, 0x04, 0, 16];
    for i in 0..256usize {
        for _ in 0..16 {
            file.push(i as u8);
        }
    }
    file
}

fn at(state: &State, x: i32, y: i32) -> u32 {
    state.fb.pixels[(y as u32 * state.fb.width + x as u32) as usize]
}

fn glyph_rows(bytes: &[u8], height: usize, i: usize) -> Vec<u8> {
    bytes[4 + i * height..4 + (i + 1) * height].to_vec()
}

fn save(state: &mut State) -> (String, Vec<u8>) {
    let request = state.events(Event::KeyPress(KeyButton::Character('w'))).unwrap();
    (request.file_name, request.contents)
}

fn title(message: &Message) -> &str {
    match message {
        Message::ChangeWindowTitle(t) => t.as_str(),
        Message::Quit => panic!("not a title"),
    }
}

#[test]
fn new_state_is_blank_and_selects_glyph_zero() {
    let state = State::new(W, H, &font_file());
    assert_eq!(state.fb.width, W);
    assert_eq!(state.fb.height, H);
    assert!(state.fb.pixels.iter().all(|p| *p == 0));
    assert!(state.message_queue.is_empty());
    assert_eq!(state.get_selected_index(), 0);
}

#[test]
fn saving_stores_the_font_under_numbered_names() {
    let file = font_file();
    let mut state = State::new(W, H, &file);
    let (name, contents) = save(&mut state);
    assert_eq!(name, "saved_font000.psf");
    assert_eq!(contents, file);
    let (name, _) = save(&mut state);
    assert_eq!(name, "saved_font001.psf");
}

#[test]
fn other_keys_return_no_request() {
    let mut state = State::new(W, H, &font_file());
    assert!(state.events(Event::KeyPress(KeyButton::Character('q'))).is_none());
    assert!(state.events(Event::KeyRelease(KeyButton::Character('w'))).is_none());
    assert!(state.events(Event::MouseWheel(3)).is_none());
    assert!(state.message_queue.is_empty());
}

#[test]
fn saving_a_512_glyph_font_writes_mode_zero() {
    let mut file = vec![0x36, 0x04, 1, 1];
    for i in 0..512usize {
        file.push((i % 256) as u8);
    }
    let mut state = State::new(W, H, &file);
    let (_, contents) = save(&mut state);
    assert_eq!(contents[2], 0);
    assert_eq!(contents.len(), 4 + 512);
    assert_eq!(contents[4..], file[4..]);
}

#[test]
fn escape_asks_to_quit() {
    let mut state = State::new(W, H, &font_file());
    state.events(Event::KeyPress(KeyButton::Escape));
    assert_eq!(state.message_queue.len(), 1);
    assert!(matches!(state.message_queue[0], Message::Quit));
}

#[test]
fn clicking_a_glyph_selects_it_and_titles_the_window() {
    let mut state = State::new(W, H, &font_file());
    // glyph 5 of grid row 1 is glyph 21; its frame starts at (3 + 5 * 16, 3 + 32)
    state.events(Event::MouseMotion(3 + 5 * 16 + 4, 3 + 32 + 4));
    state.events(Event::MousePress(MouseButton::Left, 3 + 5 * 16 + 4, 3 + 32 + 4));
    assert_eq!(state.get_selected_index(), 21);
    assert_eq!(state.message_queue.len(), 1);
    assert_eq!(title(&state.message_queue[0]), "psfe | index = 21");
    let (_, contents) = save(&mut state);
    assert_eq!(glyph_rows(&contents, 16, 21), vec![21; 16]);
}

#[test]
fn right_clicking_a_glyph_clears_it() {
    let mut state = State::new(W, H, &font_file());
    state.events(Event::MousePress(MouseButton::Right, 3 + 7 * 16 + 2, 5));
    assert_eq!(state.get_selected_index(), 7);
    let (_, contents) = save(&mut state);
    assert_eq!(glyph_rows(&contents, 16, 7), vec![0; 16]);
    assert_eq!(glyph_rows(&contents, 16, 8), vec![8; 16]);
}

#[test]
fn clicking_left_of_the_grid_wraps_the_selection() {
    let mut state = State::new(W, H, &font_file());
    state.events(Event::MousePress(MouseButton::Left, -20, 10));
    assert_eq!(state.get_selected_index(), u32::MAX as usize);
    assert_eq!(title(&state.message_queue[0]), "psfe | index = 4294967295");
}

#[test]
fn drawing_in_the_editor_sets_and_clears_bits() {
    let mut state = State::new(W, H, &font_file());
    let (ox, oy) = (512 - 64, 384 - 128);
    // select glyph 0 (all clear), then draw at editor cells (2, 3) and (3, 3)
    state.events(Event::MousePress(MouseButton::Left, ox + 2 * 16 + 5, oy + 3 * 16 + 5));
    state.events(Event::MouseMotion(ox + 3 * 16 + 5, oy + 3 * 16 + 5));
    state.events(Event::MouseRelease(ox + 3 * 16 + 5, oy + 3 * 16 + 5));
    state.events(Event::MouseMotion(ox + 7 * 16 + 5, oy + 3 * 16 + 5));
    let (_, contents) = save(&mut state);
    let rows = glyph_rows(&contents, 16, 0);
    assert_eq!(rows[3], 0b0011_0000);
    assert_eq!(rows.iter().filter(|r| **r != 0).count(), 1);

    // a press with another button draws by clearing bits
    state.events(Event::MousePress(MouseButton::Middle, ox + 2 * 16 + 5, oy + 3 * 16 + 5));
    state.events(Event::MouseRelease(0, 0));
    let (_, contents) = save(&mut state);
    assert_eq!(glyph_rows(&contents, 16, 0)[3], 0b0001_0000);
}

#[test]
fn clear_key_clears_the_extended_ascii_glyphs() {
    let file = font_file();
    let mut state = State::new(W, H, &file);
    state.events(Event::KeyPress(KeyButton::Character('c')));
    let (_, contents) = save(&mut state);
    for i in 0..256 {
        let expected = if i >= 128 { 0 } else { i as u8 };
        assert_eq!(glyph_rows(&contents, 16, i), vec![expected; 16]);
    }
}

#[test]
fn minus_drops_the_top_row_of_every_glyph() {
    let mut file = vec![0x36, 0x04, 0, 2];
    for i in 0..256usize {
        file.push(0xff);
        file.push(i as u8);
    }
    let mut state = State::new(W, H, &file);
    state.events(Event::KeyPress(KeyButton::Minus));
    let (_, contents) = save(&mut state);
    assert_eq!(contents[3], 1);
    assert_eq!(contents.len(), 4 + 256);
    for i in 0..256usize {
        assert_eq!(contents[4 + i], i as u8);
    }
}

#[test]
fn minus_recentres_the_editor() {
    let mut state = State::new(W, H, &font_file());
    state.events(Event::KeyPress(KeyButton::Minus));
    state.render();
    // the editor's top-left cell moved down by half a cell
    let (ox, oy) = (512 - 64, 384 - 15 * 8);
    assert_eq!(at(&state, ox, oy), 0x222222ff);
    assert_eq!(at(&state, ox + 1, oy + 1), 0x111111ff);
}

#[test]
fn render_draws_the_grid_and_the_editor() {
    let mut state = State::new(W, H, &font_file());
    state.render();
    // glyph 0 is selected and hovered: green frame, grey background
    assert_eq!(at(&state, 3, 3), 0x00aa00ff);
    assert_eq!(at(&state, 4, 4), 0x848484ff);
    // glyph 1: dark red frame; its rows are 0b0000_0001, so column 7 is white
    assert_eq!(at(&state, 19, 3), 0x770000ff);
    assert_eq!(at(&state, 19 + 1 + 7, 4), 0xffffffff);
    assert_eq!(at(&state, 19 + 1, 4), 0x000000ff);
    // between frames nothing is drawn
    assert_eq!(at(&state, 15, 3), 0);
    // the editor shows glyph 0: clear cells with grid lines
    let (ox, oy) = (512 - 64, 384 - 128);
    assert_eq!(at(&state, ox, oy), 0x222222ff);
    assert_eq!(at(&state, ox + 5, oy + 5), 0x111111ff);
    assert_eq!(at(&state, ox + 8 * 16, oy + 16 * 16), 0x222222ff);
    assert_eq!(at(&state, ox + 8 * 16 + 1, oy + 16 * 16 + 1), 0);
}

#[test]
fn render_marks_the_hovered_glyph_and_editor_cell() {
    let mut state = State::new(W, H, &font_file());
    state.events(Event::MousePress(MouseButton::Left, 3 + 16 + 4, 5));
    state.events(Event::MouseMotion(3 + 2 * 16 + 4, 5));
    state.render();
    assert_eq!(at(&state, 19, 3), 0x00aa00ff);
    assert_eq!(at(&state, 35, 3), 0x990000ff);
    assert_eq!(at(&state, 36, 4), 0x585858ff);
    assert_eq!(at(&state, 3, 3), 0x770000ff);

    let (ox, oy) = (512 - 64, 384 - 128);
    state.events(Event::MouseMotion(ox + 16 + 3, oy + 2 * 16 + 3));
    state.render();
    // glyph 1 is selected: column 7 of its editor rows is white
    assert_eq!(at(&state, ox + 7 * 16 + 5, oy + 5), 0xffffffff);
    // the hovered cell (1, 2) is framed in green
    assert_eq!(at(&state, ox + 16, oy + 2 * 16), 0x00aa00ff);
    assert_eq!(at(&state, ox + 2 * 16, oy + 3 * 16), 0x00aa00ff);
}

#[test]
fn rendering_twice_gives_the_same_frame() {
    let mut state = State::new(W, H, &font_file());
    state.events(Event::MouseMotion(40, 40));
    state.render();
    let first = state.fb.pixels.clone();
    state.render();
    assert_eq!(state.fb.pixels, first);
}

#[test]
fn can_create_checks_the_font_and_the_window() {
    let file = font_file();
    assert!(State::can_create(W, H, &file));
    assert!(!State::can_create(W, H, &file[..100]));
    assert!(!State::can_create(W, H, &[0x36, 0x04]));
    assert!(!State::can_create(W, H, &[0x37, 0x04, 0, 0]));
    assert!(State::can_create(W, H, &[0x36, 0x04, 0, 0]));
    // the editor needs 64 columns on each side of the centre
    assert!(!State::can_create(127, H, &file));
    assert!(State::can_create(128, H, &file));
    // and 16 rows of 8 on each side for a 16-row font
    assert!(!State::can_create(W, 255, &file));
    assert!(State::can_create(W, 256, &file));
    // the framebuffer's size must fit in a u32
    assert!(!State::can_create(65536, 65536, &file));
}

#[test]
fn accepts_event_refuses_what_would_fail() {
    let mut file = vec![0x36, 0x04, 0, 1];
    file.extend(std::iter::repeat(0).take(256));
    let mut state = State::new(W, H, &file);
    assert!(state.accepts_event(&Event::KeyPress(KeyButton::Minus)));
    assert!(state.accepts_event(&Event::MouseMotion(10, 10)));
    assert!(!state.accepts_event(&Event::MouseMotion(i32::MIN, 10)));
    state.events(Event::KeyPress(KeyButton::Minus));
    // a font without rows has nothing left to remove, and no cell height
    assert!(!state.accepts_event(&Event::KeyPress(KeyButton::Minus)));
    assert!(!state.accepts_event(&Event::MouseMotion(10, 10)));
    assert!(state.accepts_event(&Event::KeyPress(KeyButton::Escape)));
    assert!(state.accepts_event(&Event::MouseRelease(0, 0)));
}

#[test]
fn accepts_event_refuses_clearing_a_wrapped_selection() {
    let state = State::new(W, H, &font_file());
    assert!(state.accepts_event(&Event::MousePress(MouseButton::Left, -20, 10)));
    assert!(!state.accepts_event(&Event::MousePress(MouseButton::Right, -20, 10)));
    // a wrapped row times sixteen no longer fits the index
    assert!(!state.accepts_event(&Event::MousePress(MouseButton::Left, 10, -100)));
}

#[test]
fn can_render_refuses_a_wrapped_selection() {
    let mut state = State::new(W, H, &font_file());
    assert!(state.can_render());
    state.events(Event::MousePress(MouseButton::Left, -20, 10));
    assert!(!state.can_render());
    state.events(Event::MousePress(MouseButton::Left, 5, 5));
    assert!(state.can_render());
}

#[test]
fn hover_ok_at_checks_the_arithmetic() {
    let state = State::new(W, H, &font_file());
    assert!(state.hover_ok_at(0, 0));
    assert!(state.hover_ok_at(i32::MAX, i32::MAX));
    assert!(!state.hover_ok_at(i32::MIN + 2, 0));
    assert!(state.hover_ok_at(i32::MIN + 3, 0));
}

#[test]
fn accessors_and_stored_font() {
    let file = font_file();
    let mut state = State::new(W, H, &file);
    assert_eq!(state.construct_font_file(), file);
    state.events(Event::KeyPress(KeyButton::Escape));
    assert_eq!(state.messages().len(), 1);
    assert_eq!(state.framebuffer().width, W);
}

#[test]
fn a_frame_does_not_depend_on_the_previous_one() {
    let file = font_file();
    let mut a = State::new(W, H, &file);
    let mut b = State::new(W, H, &file);
    b.fb.pixels.iter_mut().for_each(|p| *p = 0xdeadbeef);
    a.render();
    b.render();
    assert_eq!(a.fb.pixels, b.fb.pixels);
}

#[test]
fn drawing_mode_lasts_until_release() {
    let mut state = State::new(W, H, &font_file());
    let (ox, oy) = (512 - 64, 384 - 128);
    state.events(Event::MousePress(MouseButton::Left, ox + 5, oy + 5));
    // a second press with another button does not change the mode
    state.events(Event::MousePress(MouseButton::Right, ox + 16 + 5, oy + 5));
    state.events(Event::MouseMotion(ox + 2 * 16 + 5, oy + 5));
    let bytes = state.construct_font_file();
    assert_eq!(bytes[4], 0b1110_0000);
}
