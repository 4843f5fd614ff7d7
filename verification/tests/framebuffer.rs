use psfe::framebuffer::Framebuffer;

fn at(fb: &Framebuffer, x: u32, y: u32) -> u32 {
    fb.pixels[(y * fb.width + x) as usize]
}

#[test]
fn new_framebuffer_is_blank() {
    let fb = Framebuffer::new(4, 3);
    assert_eq!(fb.width, 4);
    assert_eq!(fb.height, 3);
    assert_eq!(fb.pixels, vec![0u32; 12]);
}

#[test]
fn empty_framebuffer() {
    let fb = Framebuffer::new(0, 7);
    assert!(fb.pixels.is_empty());
}

#[test]
fn draw_pixel_stores_rgba() {
    let mut fb = Framebuffer::new(4, 3);
    fb.draw_pixel(2, 1, 0x123456);
    assert_eq!(at(&fb, 2, 1), 0x123456ff);
    let painted = fb.pixels.iter().filter(|p| **p != 0).count();
    assert_eq!(painted, 1);
}

#[test]
fn draw_pixel_drops_the_top_colour_byte() {
    let mut fb = Framebuffer::new(2, 2);
    fb.draw_pixel(0, 0, 0xab00ff00);
    assert_eq!(at(&fb, 0, 0), 0x00ff00ff);
}

#[test]
fn draw_pixel_outside_changes_nothing() {
    let mut fb = Framebuffer::new(4, 3);
    fb.draw_pixel(4, 0, 0xffffff);
    fb.draw_pixel(0, 3, 0xffffff);
    fb.draw_pixel(u32::MAX, u32::MAX, 0xffffff);
    assert_eq!(fb.pixels, vec![0u32; 12]);
}

#[test]
fn clear_blanks_every_pixel() {
    let mut fb = Framebuffer::new(3, 3);
    fb.draw_rect(0, 0, 3, 3, 0x111111);
    fb.clear();
    assert_eq!(fb.pixels, vec![0u32; 9]);
}

#[test]
fn draw_rect_fills_the_block_and_clips() {
    let mut fb = Framebuffer::new(5, 4);
    fb.draw_rect(3, 2, 4, 4, 0x010203);
    for y in 0..4 {
        for x in 0..5 {
            let inside = x >= 3 && y >= 2;
            assert_eq!(at(&fb, x, y), if inside { 0x010203ff } else { 0 }, "({x}, {y})");
        }
    }
}

#[test]
fn draw_rect_of_zero_size_changes_nothing() {
    let mut fb = Framebuffer::new(3, 3);
    fb.draw_rect(1, 1, 0, 2, 0xffffff);
    fb.draw_rect(1, 1, 2, 0, 0xffffff);
    assert_eq!(fb.pixels, vec![0u32; 9]);
}

#[test]
fn draw_rect_hollow_draws_the_border() {
    let mut fb = Framebuffer::new(6, 6);
    fb.draw_rect_hollow(1, 1, 4, 3, 0x00aa00);
    for y in 0..6u32 {
        for x in 0..6u32 {
            let border = (1..5).contains(&x) && (y == 1 || y == 3)
                || (1..4).contains(&y) && (x == 1 || x == 4);
            assert_eq!(at(&fb, x, y), if border { 0x00aa00ff } else { 0 }, "({x}, {y})");
        }
    }
}

#[test]
fn draw_rect_hollow_of_width_zero_draws_the_column_before() {
    let mut fb = Framebuffer::new(4, 4);
    fb.draw_rect_hollow(2, 0, 0, 2, 0x000001);
    assert_eq!(at(&fb, 1, 0), 0x000001ff);
    assert_eq!(at(&fb, 1, 1), 0x000001ff);
    assert_eq!(at(&fb, 2, 0), 0x000001ff);
    assert_eq!(at(&fb, 2, 1), 0x000001ff);
    assert_eq!(fb.pixels.iter().filter(|p| **p != 0).count(), 4);
}

#[test]
fn draw_square_is_draw_rect() {
    let mut a = Framebuffer::new(8, 8);
    let mut b = Framebuffer::new(8, 8);
    a.draw_square(2, 3, 4, 0x445566);
    b.draw_rect(2, 3, 4, 4, 0x445566);
    assert_eq!(a.pixels, b.pixels);
}

#[test]
fn draw_square_hollow_is_draw_rect_hollow() {
    let mut a = Framebuffer::new(8, 8);
    let mut b = Framebuffer::new(8, 8);
    a.draw_square_hollow(1, 1, 5, 0x445566);
    b.draw_rect_hollow(1, 1, 5, 5, 0x445566);
    assert_eq!(a.pixels, b.pixels);
}

#[test]
fn drawing_twice_changes_nothing_more() {
    let mut fb = Framebuffer::new(8, 8);
    fb.draw_rect(1, 2, 3, 4, 0x123456);
    let once = fb.pixels.clone();
    fb.draw_rect(1, 2, 3, 4, 0x123456);
    assert_eq!(fb.pixels, once);
}

#[test]
fn later_strokes_win() {
    let mut fb = Framebuffer::new(4, 4);
    fb.draw_rect(0, 0, 4, 4, 0x111111);
    fb.draw_pixel(1, 1, 0x222222);
    assert_eq!(at(&fb, 1, 1), 0x222222ff);
    assert_eq!(at(&fb, 0, 0), 0x111111ff);
}

#[test]
fn clear_works_on_any_buffer() {
    let mut fb = Framebuffer { width: 10, height: 10, pixels: vec![7u32; 3] };
    fb.clear();
    assert_eq!(fb.pixels, vec![0u32; 3]);
    assert_eq!(fb.width, 10);
}
