use psfe::bitmatrix::BitMatrix;
use psfe::font::Font;

/// A PSF1 file of `count` glyphs (mode byte `mode`) whose glyph `i` has
/// row `r` equal to `row(i, r)`.
fn psf1(mode: u8, height: u8, count: usize, row: impl Fn(usize, usize) -> u8) -> Vec<u8> {
    let mut file = vec![0x36, 0x04, mode, height];
    for i in 0..count {
        for r in 0..height as usize {
            file.push(row(i, r));
        }
    }
    file
}

#[test]
fn bit_matrix_starts_clear() {
    let m = BitMatrix::new(8, 3);
    for y in 0..3 {
        for x in 0..8 {
            assert!(!m.get(x, y));
        }
    }
}

#[test]
fn bit_matrix_set_and_get() {
    let mut m = BitMatrix::new(8, 2);
    m.set(3, 1);
    assert!(m.get(3, 1));
    assert!(!m.get(3, 0));
    assert!(!m.get(4, 1));
    m.set_to(3, 1, false);
    assert!(!m.get(3, 1));
}

#[test]
fn bit_matrix_clear_all() {
    let mut m = BitMatrix::new(8, 2);
    m.set(0, 0);
    m.set(7, 1);
    m.clear_all();
    assert_eq!(m.serialize(), vec![0, 0]);
}

#[test]
fn bit_matrix_serialize_puts_the_leftmost_pixel_high() {
    let mut m = BitMatrix::new(8, 3);
    m.set(0, 0);
    m.set(7, 1);
    m.set(1, 2);
    m.set(6, 2);
    assert_eq!(m.serialize(), vec![0x80, 0x01, 0x42]);
}

#[test]
fn bit_matrix_serialize_without_columns() {
    let m = BitMatrix::new(0, 2);
    assert_eq!(m.serialize(), vec![0, 0]);
}

#[test]
fn bit_matrix_decrease_height_drops_the_top_row() {
    let mut m = BitMatrix::new(8, 3);
    m.set(0, 0);
    m.set(1, 1);
    m.set(2, 2);
    m.decrease_height();
    assert_eq!(m.serialize(), vec![0x40, 0x20]);
}

#[test]
fn from_file_refuses_other_magic() {
    assert!(Font::from_file(&[0x72, 0xb5, 0x4a, 0x86]).is_none());
    assert!(Font::from_file(&[0x36, 0x05]).is_none());
}

#[test]
fn from_file_reads_256_glyphs() {
    let file = psf1(0, 2, 256, |i, r| (i as u8).wrapping_add(r as u8));
    let font = Font::from_file(&file).unwrap();
    assert_eq!(font.width(), 8);
    assert_eq!(font.height(), 2);
    assert_eq!(font.num_glyphs(), 256);
    // glyph 0x41, row 1 is 0x42 = 0b0100_0010: columns 1 and 6 are set
    for x in 0..8 {
        assert_eq!(font.glyph_bit(0x41, x, 1), x == 1 || x == 6);
    }
    assert_eq!(font.glyph_rows(0x41), vec![0x41, 0x42]);
}

#[test]
fn from_file_reads_512_glyphs_in_mode_512() {
    let file = psf1(0x03, 1, 512, |i, _| (i >> 1) as u8);
    let font = Font::from_file(&file).unwrap();
    assert_eq!(font.num_glyphs(), 512);
    assert_eq!(font.glyph_rows(511), vec![0xff]);
}

#[test]
fn from_file_ignores_trailing_bytes() {
    let mut file = psf1(0, 1, 256, |i, _| i as u8);
    file.extend_from_slice(&[1, 2, 3]);
    let font = Font::from_file(&file).unwrap();
    assert_eq!(font.num_glyphs(), 256);
    assert_eq!(font.glyph_rows(255), vec![255]);
}

#[test]
fn parse_psf1_glyphs_reads_each_glyph() {
    let file = psf1(0, 3, 256, |i, r| if r == 0 { i as u8 } else { 0 });
    let glyphs = Font::parse_psf1_glyphs(3, &file);
    assert_eq!(glyphs.len(), 256);
    assert_eq!(glyphs[0x80].serialize(), vec![0x80, 0, 0]);
}

#[test]
fn font_with_zero_height() {
    let file = vec![0x36, 0x04, 0, 0];
    let font = Font::from_file(&file).unwrap();
    assert_eq!(font.height(), 0);
    assert_eq!(font.glyph_rows(3), Vec::<u8>::new());
}

#[test]
fn editor_offset_centres_the_editor() {
    let file = psf1(0, 16, 256, |_, _| 0);
    let font = Font::from_file(&file).unwrap();
    assert_eq!(font.calculate_editor_offset(1024, 768), (512 - 64, 384 - 128));
}

#[test]
fn font_decrease_height_drops_every_top_row() {
    let file = psf1(0, 2, 256, |i, r| if r == 0 { 0xff } else { i as u8 });
    let mut font = Font::from_file(&file).unwrap();
    font.decrease_height();
    assert_eq!(font.height(), 1);
    assert_eq!(font.glyph_rows(7), vec![7]);
    assert_eq!(font.glyph_rows(200), vec![200]);
}

#[test]
fn font_glyph_edits() {
    let file = psf1(0, 2, 256, |_, _| 0);
    let mut font = Font::from_file(&file).unwrap();
    font.set_glyph_bit(9, 0, 1, true);
    assert_eq!(font.glyph_rows(9), vec![0x00, 0x80]);
    assert!(font.glyph_bit(9, 0, 1));
    font.clear_glyph(9);
    assert_eq!(font.glyph_rows(9), vec![0, 0]);
}

#[test]
fn parse_psf1_glyphs_uses_the_given_height() {
    // the header says 1 row, the glyphs are read 2 rows tall
    let file = psf1(0, 2, 256, |i, r| if r == 0 { i as u8 } else { 0xff });
    let mut file = file;
    file[3] = 1;
    let glyphs = Font::parse_psf1_glyphs(2, &file);
    assert_eq!(glyphs.len(), 256);
    assert_eq!(glyphs[5].serialize(), vec![5, 0xff]);
}
