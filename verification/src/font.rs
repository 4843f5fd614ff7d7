use vstd::prelude::*;

use crate::bitmatrix::{BitGrid, BitMatrix, byte_bit, encodes_row};
use crate::layout::lemma_index_in_range;

verus! {

/// First byte of a PSF1 file.
pub const PSF1_MAGIC0: u8 = 0x36;

/// Second byte of a PSF1 file.
pub const PSF1_MAGIC1: u8 = 0x04;

/// Bit of the PSF1 mode byte that announces 512 glyphs instead of 256.
pub const PSF1_MODE512: u8 = 0x01;

/// Side of one editor cell, in framebuffer pixels.
pub const EDITOR_CELL_SIZE: u32 = 16;

/// The abstract font: every glyph is a `width` by `height` bit grid.
pub struct FontModel {
    pub version: u8,
    pub width: nat,
    pub height: nat,
    pub glyphs: Seq<BitGrid>,
}

impl FontModel {
    /// Glyphs are eight pixels wide, there are 256 or 512 of them, and each
    /// has the font's size.
    pub open spec fn wf(self) -> bool {
        &&& self.width == 8
        &&& self.height <= u8::MAX
        &&& (self.glyphs.len() == 256 || self.glyphs.len() == 512)
        &&& forall|i: int|
            0 <= i < self.glyphs.len() ==> {
                &&& (#[trigger] self.glyphs[i]).wf()
                &&& self.glyphs[i].width == self.width
                &&& self.glyphs[i].height() == self.height
            }
    }
}

/// The file starts with the PSF1 magic bytes.
pub open spec fn psf1_magic(file: Seq<u8>) -> bool {
    file.len() >= 2 && file[0] == PSF1_MAGIC0 && file[1] == PSF1_MAGIC1
}

/// Number of glyphs that a PSF1 mode byte announces.
pub open spec fn psf1_glyph_count(mode: u8) -> nat {
    if mode & PSF1_MODE512 != 0 {
        512
    } else {
        256
    }
}

/// The header is complete and the glyph table that it announces is there.
pub open spec fn psf1_complete(file: Seq<u8>) -> bool {
    &&& file.len() >= 4
    &&& 4 + psf1_glyph_count(file[2]) * file[3] <= file.len()
}

/// Byte `r` of glyph `i` in the glyph table of a PSF1 file whose glyphs
/// are `height` rows tall.
pub open spec fn psf1_row_byte(file: Seq<u8>, height: nat, i: int, r: int) -> u8 {
    file[4 + i * height + r]
}

/// Glyph `i` of a PSF1 file: row `r` is one byte, its most significant bit
/// the leftmost pixel.
pub open spec fn psf1_glyph(file: Seq<u8>, height: nat, i: int) -> BitGrid {
    BitGrid {
        width: 8,
        rows: Seq::new(
            height,
            |r: int| Seq::new(8, |x: int| byte_bit(psf1_row_byte(file, height, i, r), (7 - x) as u8)),
        ),
    }
}

/// The font that a complete PSF1 file holds.
pub open spec fn psf1_font(file: Seq<u8>) -> FontModel {
    FontModel {
        version: 1,
        width: 8,
        height: file[3] as nat,
        glyphs: Seq::new(psf1_glyph_count(file[2]), |i: int| psf1_glyph(file, file[3] as nat, i)),
    }
}

/// `1` where column `x` of `row` exists and is set, else `0`.
pub open spec fn bit_value(row: Seq<bool>, x: int) -> u8 {
    if 0 <= x < row.len() && row[x] {
        1
    } else {
        0
    }
}

/// The byte that stores an eight-pixel row, leftmost pixel in the most
/// significant bit.
pub open spec fn pack_row(row: Seq<bool>) -> u8 {
    ((bit_value(row, 0) << 7u8) | (bit_value(row, 1) << 6u8) | (bit_value(row, 2) << 5u8) | (
    bit_value(row, 3) << 4u8) | (bit_value(row, 4) << 3u8) | (bit_value(row, 5) << 2u8) | (
    bit_value(row, 6) << 1u8) | bit_value(row, 7)) as u8
}

/// The bytes that store a glyph, one per row from the top.
pub open spec fn glyph_bytes(g: BitGrid) -> Seq<u8> {
    Seq::new(g.height(), |r: int| pack_row(g.rows[r]))
}

/// The glyph table that stores `glyphs`, one glyph after the other.
pub open spec fn glyph_table(glyphs: Seq<BitGrid>) -> Seq<u8>
    decreases glyphs.len(),
{
    if glyphs.len() == 0 {
        Seq::empty()
    } else {
        glyph_table(glyphs.drop_last()) + glyph_bytes(glyphs.last())
    }
}

/// The PSF1 file that stores `font`: the magic bytes, a zero mode byte, the
/// glyph height, then the glyph table.
pub open spec fn psf1_file(font: FontModel) -> Seq<u8> {
    seq![PSF1_MAGIC0, PSF1_MAGIC1, 0u8, font.height as u8] + glyph_table(font.glyphs)
}

/// Top-left corner of the glyph editor: the editor grid of `fw` by `fh`
/// cells is centred on a `fb_width` by `fb_height` framebuffer.
pub open spec fn editor_offset(fb_width: u32, fb_height: u32, fw: nat, fh: nat) -> (u32, u32) {
    ((fb_width / 2 - fw * 8) as u32, (fb_height / 2 - fh * 8) as u32)
}

/// Whether a mask test reads bit `bit` of `row`.
proof fn lemma_mask_bit(row: u8, bit: u8)
    by (bit_vector)
    requires
        bit < 8,
    ensures
        (row & (1u8 << bit)) != 0 <==> (row >> bit) & 1u8 == 1u8,
{
}

/// A byte is determined by its eight bits.
proof fn lemma_pack_bits(
    byte: u8,
    b0: u8,
    b1: u8,
    b2: u8,
    b3: u8,
    b4: u8,
    b5: u8,
    b6: u8,
    b7: u8,
)
    by (bit_vector)
    requires
        b0 <= 1 && b1 <= 1 && b2 <= 1 && b3 <= 1 && b4 <= 1 && b5 <= 1 && b6 <= 1 && b7 <= 1,
        ((byte >> 7u8) & 1u8 == 1u8) == (b0 == 1),
        ((byte >> 6u8) & 1u8 == 1u8) == (b1 == 1),
        ((byte >> 5u8) & 1u8 == 1u8) == (b2 == 1),
        ((byte >> 4u8) & 1u8 == 1u8) == (b3 == 1),
        ((byte >> 3u8) & 1u8 == 1u8) == (b4 == 1),
        ((byte >> 2u8) & 1u8 == 1u8) == (b5 == 1),
        ((byte >> 1u8) & 1u8 == 1u8) == (b6 == 1),
        ((byte >> 0u8) & 1u8 == 1u8) == (b7 == 1),
    ensures
        byte == (b0 << 7u8) | (b1 << 6u8) | (b2 << 5u8) | (b3 << 4u8) | (b4 << 3u8) | (b5 << 2u8) | (
        b6 << 1u8) | b7,
{
}

/// A byte that encodes a row is the packed row.
pub proof fn lemma_encodes_row_pack(byte: u8, row: Seq<bool>)
    requires
        encodes_row(byte, row),
    ensures
        byte == pack_row(row),
{
    assert(byte_bit(byte, 7) <==> bit_value(row, 0) == 1);
    assert(byte_bit(byte, 6) <==> bit_value(row, 1) == 1);
    assert(byte_bit(byte, 5) <==> bit_value(row, 2) == 1);
    assert(byte_bit(byte, 4) <==> bit_value(row, 3) == 1);
    assert(byte_bit(byte, 3) <==> bit_value(row, 4) == 1);
    assert(byte_bit(byte, 2) <==> bit_value(row, 5) == 1);
    assert(byte_bit(byte, 1) <==> bit_value(row, 6) == 1);
    assert(byte_bit(byte, 0) <==> bit_value(row, 7) == 1);
    lemma_pack_bits(
        byte,
        bit_value(row, 0),
        bit_value(row, 1),
        bit_value(row, 2),
        bit_value(row, 3),
        bit_value(row, 4),
        bit_value(row, 5),
        bit_value(row, 6),
        bit_value(row, 7),
    );
}

/// Reading a byte's bits into an eight-pixel row and packing the row gives
/// the byte back.
pub proof fn lemma_pack_unpack(byte: u8)
    ensures
        pack_row(Seq::new(8, |x: int| byte_bit(byte, (7 - x) as u8))) == byte,
{
    let row = Seq::new(8, |x: int| byte_bit(byte, (7 - x) as u8));
    assert forall|b: u8| b < 8 implies (#[trigger] byte_bit(byte, b) <==> (7 - b < row.len()
        && row[7 - b])) by {
        assert(row[7 - b] == byte_bit(byte, (7 - (7 - b)) as u8));
    }
    lemma_encodes_row_pack(byte, row);
}

/// The packed byte of an eight-pixel row holds the row's pixels.
pub proof fn lemma_unpack_pack(row: Seq<bool>)
    requires
        row.len() == 8,
    ensures
        Seq::new(8, |x: int| byte_bit(pack_row(row), (7 - x) as u8)) =~= row,
{
    let p = pack_row(row);
    assert forall|x: int| 0 <= x < 8 implies byte_bit(p, (7 - x) as u8) == row[x] by {
        lemma_pack_byte_bits(
            bit_value(row, 0),
            bit_value(row, 1),
            bit_value(row, 2),
            bit_value(row, 3),
            bit_value(row, 4),
            bit_value(row, 5),
            bit_value(row, 6),
            bit_value(row, 7),
        );
    }
}

/// The bits of a byte assembled from eight bits.
proof fn lemma_pack_byte_bits(b0: u8, b1: u8, b2: u8, b3: u8, b4: u8, b5: u8, b6: u8, b7: u8)
    by (bit_vector)
    requires
        b0 <= 1 && b1 <= 1 && b2 <= 1 && b3 <= 1 && b4 <= 1 && b5 <= 1 && b6 <= 1 && b7 <= 1,
    ensures
        ((((b0 << 7u8) | (b1 << 6u8) | (b2 << 5u8) | (b3 << 4u8) | (b4 << 3u8) | (b5 << 2u8) | (b6
            << 1u8) | b7) >> 7u8) & 1u8 == 1u8) == (b0 == 1),
        ((((b0 << 7u8) | (b1 << 6u8) | (b2 << 5u8) | (b3 << 4u8) | (b4 << 3u8) | (b5 << 2u8) | (b6
            << 1u8) | b7) >> 6u8) & 1u8 == 1u8) == (b1 == 1),
        ((((b0 << 7u8) | (b1 << 6u8) | (b2 << 5u8) | (b3 << 4u8) | (b4 << 3u8) | (b5 << 2u8) | (b6
            << 1u8) | b7) >> 5u8) & 1u8 == 1u8) == (b2 == 1),
        ((((b0 << 7u8) | (b1 << 6u8) | (b2 << 5u8) | (b3 << 4u8) | (b4 << 3u8) | (b5 << 2u8) | (b6
            << 1u8) | b7) >> 4u8) & 1u8 == 1u8) == (b3 == 1),
        ((((b0 << 7u8) | (b1 << 6u8) | (b2 << 5u8) | (b3 << 4u8) | (b4 << 3u8) | (b5 << 2u8) | (b6
            << 1u8) | b7) >> 3u8) & 1u8 == 1u8) == (b4 == 1),
        ((((b0 << 7u8) | (b1 << 6u8) | (b2 << 5u8) | (b3 << 4u8) | (b4 << 3u8) | (b5 << 2u8) | (b6
            << 1u8) | b7) >> 2u8) & 1u8 == 1u8) == (b5 == 1),
        ((((b0 << 7u8) | (b1 << 6u8) | (b2 << 5u8) | (b3 << 4u8) | (b4 << 3u8) | (b5 << 2u8) | (b6
            << 1u8) | b7) >> 1u8) & 1u8 == 1u8) == (b6 == 1),
        ((((b0 << 7u8) | (b1 << 6u8) | (b2 << 5u8) | (b3 << 4u8) | (b4 << 3u8) | (b5 << 2u8) | (b6
            << 1u8) | b7) >> 0u8) & 1u8 == 1u8) == (b7 == 1),
{
}

/// The glyph table of glyphs that are all `height` rows tall holds glyph
/// `i`'s row `r` at `i * height + r`.
pub proof fn lemma_glyph_table_index(glyphs: Seq<BitGrid>, height: nat)
    requires
        forall|i: int| 0 <= i < glyphs.len() ==> (#[trigger] glyphs[i]).height() == height,
    ensures
        glyph_table(glyphs).len() == glyphs.len() * height,
        forall|i: int, r: int|
            0 <= i < glyphs.len() && 0 <= r < height ==> #[trigger] glyph_table(glyphs)[i * height + r]
                == pack_row(glyphs[i].rows[r]),
    decreases glyphs.len(),
{
    if glyphs.len() > 0 {
        let init = glyphs.drop_last();
        lemma_glyph_table_index(init, height);
        let n = glyphs.len() - 1;
        assert(glyph_table(glyphs).len() == glyphs.len() * height) by (nonlinear_arith)
            requires
                glyph_table(glyphs).len() == n * height + height,
                glyphs.len() == n + 1,
        ;
        assert forall|i: int, r: int|
            0 <= i < glyphs.len() && 0 <= r < height implies #[trigger] glyph_table(glyphs)[i
            * height + r] == pack_row(glyphs[i].rows[r]) by {
            lemma_index_in_range(height as int, glyphs.len() as int, r, i);
            assert(glyph_table(glyphs) == glyph_table(init) + glyph_bytes(glyphs.last()));
            assert(glyphs.last() == glyphs[n]);
            assert(glyphs[n].height() == height);
            if i < n {
                lemma_index_in_range(height as int, n, r, i);
                assert(init[i] == glyphs[i]);
                assert(glyph_table(init)[i * height + r] == pack_row(init[i].rows[r]));
                assert(i * height + r < glyph_table(init).len());
                assert(glyph_table(glyphs)[i * height + r] == glyph_table(init)[i * height + r]);
            } else {
                assert(i * height == n * height);
                assert(glyph_bytes(glyphs.last())[r] == pack_row(glyphs[n].rows[r]));
            }
        }
    }
}

/// Storing the font read from a PSF1 file gives back the file's glyph
/// table under a header whose mode byte is zero.
pub proof fn lemma_load_then_store(file: Seq<u8>)
    requires
        psf1_complete(file),
    ensures
        psf1_file(psf1_font(file)) == seq![PSF1_MAGIC0, PSF1_MAGIC1, 0u8, file[3]] + file.subrange(
            4,
            4 + psf1_glyph_count(file[2]) * file[3],
        ),
{
    let f = psf1_font(file);
    let h = file[3] as nat;
    let n = psf1_glyph_count(file[2]);
    lemma_glyph_table_index(f.glyphs, h);
    let table = glyph_table(f.glyphs);
    let expected = file.subrange(4, 4 + (n * h) as int);
    assert forall|k: int| 0 <= k < table.len() implies table[k] == expected[k] by {
        crate::layout::lemma_index_decompose(h as int, n as int, k);
        let i = k / (h as int);
        let r = k % (h as int);
        assert(table[i * h + r] == pack_row(f.glyphs[i].rows[r]));
        lemma_pack_unpack(psf1_row_byte(file, h, i, r));
        assert(f.glyphs[i].rows[r] =~= Seq::new(
            8,
            |x: int| byte_bit(psf1_row_byte(file, h, i, r), (7 - x) as u8),
        ));
    }
    assert(table =~= expected);
    assert(psf1_file(f) =~= seq![PSF1_MAGIC0, PSF1_MAGIC1, 0u8, file[3]] + expected);
}

/// Reading back a stored font gives its size and its first 256 glyphs (the
/// stored header announces 256).
pub proof fn lemma_store_then_load(font: FontModel)
    requires
        font.wf(),
    ensures
        psf1_magic(psf1_file(font)),
        psf1_complete(psf1_file(font)),
        psf1_font(psf1_file(font)).width == font.width,
        psf1_font(psf1_file(font)).height == font.height,
        psf1_font(psf1_file(font)).glyphs == font.glyphs.take(256),
{
    let file = psf1_file(font);
    let h = font.height;
    lemma_glyph_table_index(font.glyphs, h);
    assert(file[2] == 0u8);
    assert(0u8 & PSF1_MODE512 == 0u8) by (bit_vector);
    assert(font.glyphs.len() * h >= 256 * h) by (nonlinear_arith)
        requires
            font.glyphs.len() >= 256,
    ;
    let loaded = psf1_font(file);
    assert forall|i: int| 0 <= i < 256 implies loaded.glyphs[i] == font.glyphs[i] by {
        let g = font.glyphs[i];
        assert forall|r: int| 0 <= r < h implies (#[trigger] loaded.glyphs[i].rows[r]) =~= g.rows[r] by {
            lemma_index_in_range(h as int, font.glyphs.len() as int, r, i);
            assert(psf1_row_byte(file, h, i, r) == glyph_table(font.glyphs)[i * h + r]);
            lemma_unpack_pack(g.rows[r]);
        }
        assert(loaded.glyphs[i].rows =~= g.rows);
    }
    assert(loaded.glyphs =~= font.glyphs.take(256));
}

/// Loading a PSF1 file of 256 glyphs with a zero mode byte and no bytes
/// after its glyph table, and storing the font again, gives back the file.
pub proof fn lemma_load_then_store_exact(file: Seq<u8>)
    requires
        psf1_magic(file),
        file.len() >= 4,
        file[2] == 0,
        file.len() == 4 + 256 * file[3],
    ensures
        psf1_file(psf1_font(file)) == file,
{
    assert(0u8 & PSF1_MODE512 == 0u8) by (bit_vector);
    lemma_load_then_store(file);
    assert(seq![PSF1_MAGIC0, PSF1_MAGIC1, 0u8, file[3]] + file.subrange(4, 4 + 256 * file[3]) =~= file);
}

/// The glyph count follows the lowest bit of the mode byte alone: a PSF1
/// file loads 512 glyphs when the mode byte is odd and 256 when it is even
/// (so a file with only the Unicode-table bit, mode 2, loads 256), and the
/// file is complete when it holds that many glyphs of the header's height.
pub proof fn lemma_glyph_count_follows_mode_bit(file: Seq<u8>)
    requires
        file.len() >= 4,
    ensures
        psf1_font(file).glyphs.len() == if file[2] % 2 == 1 {
            512int
        } else {
            256int
        },
        psf1_complete(file) <==> file.len() >= 4 + (if file[2] % 2 == 1 {
            512int
        } else {
            256int
        }) * file[3],
{
    let mode = file[2];
    assert((mode & 1u8 != 0u8) == (mode % 2 == 1)) by (bit_vector);
}

/// Glyph `i` of the file while it is being read: rows before `h`, and the
/// columns of row `h` whose bit index is below `bit`, are filled in.
spec fn psf1_glyph_prefix(file: Seq<u8>, height: nat, i: int, h: int, bit: int) -> BitGrid {
    BitGrid {
        width: 8,
        rows: Seq::new(
            height,
            |r: int|
                Seq::new(
                    8,
                    |x: int|
                        if r < h || (r == h && 7 - x < bit) {
                            byte_bit(psf1_row_byte(file, height, i, r), (7 - x) as u8)
                        } else {
                            false
                        },
                ),
        ),
    }
}

/// A PSF1 font.
pub struct Font {
    version: u8,
    width: u8,
    height: u8,
    glyphs: Vec<BitMatrix>,
}

impl View for Font {
    type V = FontModel;

    closed spec fn view(&self) -> FontModel {
        FontModel {
            version: self.version,
            width: self.width as nat,
            height: self.height as nat,
            glyphs: self.glyphs@.map_values(|g: BitMatrix| g@),
        }
    }
}

impl Font {
    /// The font model is well formed and every glyph's storage matches it.
    pub closed spec fn wf(&self) -> bool {
        &&& self@.wf()
        &&& forall|i: int| 0 <= i < self.glyphs@.len() ==> (#[trigger] self.glyphs@[i]).wf()
    }

    pub proof fn lemma_wf(&self)
        requires
            self.wf(),
        ensures
            self@.wf(),
    {
    }

    pub fn width(&self) -> (w: u8)
        ensures
            w == self@.width,
    {
        self.width
    }

    pub fn height(&self) -> (h: u8)
        ensures
            h == self@.height,
    {
        self.height
    }

    pub fn num_glyphs(&self) -> (n: usize)
        ensures
            n == self@.glyphs.len(),
    {
        self.glyphs.len()
    }

    /// The pixel at column `x`, row `y` of glyph `i`.
    pub fn glyph_bit(&self, i: usize, x: usize, y: usize) -> (bit: bool)
        requires
            self.wf(),
            i < self@.glyphs.len(),
            x < self@.width,
            y < self@.height,
        ensures
            bit == self@.glyphs[i as int].get(x as int, y as int),
    {
        proof {
            assert(self@.glyphs[i as int] == self.glyphs@[i as int]@);
        }
        self.glyphs[i].get(x, y)
    }

    /// Sets the pixel at column `x`, row `y` of glyph `i` to `val`.
    pub fn set_glyph_bit(&mut self, i: usize, x: usize, y: usize, val: bool)
        requires
            old(self).wf(),
            i < old(self)@.glyphs.len(),
            x < old(self)@.width,
            y < old(self)@.height,
        ensures
            final(self).wf(),
            final(self)@ == (FontModel {
                glyphs: old(self)@.glyphs.update(i as int, old(self)@.glyphs[i as int].with(x as int, y as int, val)),
                ..old(self)@
            }),
    {
        proof {
            assert(self@.glyphs[i as int] == self.glyphs@[i as int]@);
        }
        self.glyphs[i].set_to(x, y, val);
        proof {
            assert(self@.glyphs =~= old(self)@.glyphs.update(
                i as int,
                old(self)@.glyphs[i as int].with(x as int, y as int, val),
            ));
            let g = self@.glyphs[i as int];
            assert forall|r: int| 0 <= r < g.rows.len() implies (#[trigger] g.rows[r]).len()
                == g.width by {
                if r == y {
                } else {
                    assert(g.rows[r] == old(self)@.glyphs[i as int].rows[r]);
                }
            }
        }
    }

    /// Clears every pixel of glyph `i`.
    pub fn clear_glyph(&mut self, i: usize)
        requires
            old(self).wf(),
            i < old(self)@.glyphs.len(),
        ensures
            final(self).wf(),
            final(self)@ == (FontModel {
                glyphs: old(self)@.glyphs.update(i as int, BitGrid::blank(old(self)@.width, old(self)@.height)),
                ..old(self)@
            }),
    {
        proof {
            assert(self@.glyphs[i as int] == self.glyphs@[i as int]@);
        }
        self.glyphs[i].clear_all();
        proof {
            assert(self@.glyphs =~= old(self)@.glyphs.update(
                i as int,
                BitGrid::blank(old(self)@.width, old(self)@.height),
            ));
        }
    }

    /// The bytes that store glyph `i`, one per row.
    pub fn glyph_rows(&self, i: usize) -> (rows: Vec<u8>)
        requires
            self.wf(),
            i < self@.glyphs.len(),
        ensures
            rows@ == glyph_bytes(self@.glyphs[i as int]),
    {
        proof {
            assert(self@.glyphs[i as int] == self.glyphs@[i as int]@);
        }
        let rows = self.glyphs[i].serialize();
        proof {
            let g = self@.glyphs[i as int];
            assert forall|r: int| 0 <= r < rows@.len() implies rows@[r] == pack_row(g.rows[r]) by {
                lemma_encodes_row_pack(rows@[r], g.rows[r]);
            }
            assert(rows@ =~= glyph_bytes(g));
        }
        rows
    }

    /// Top-left corner of the glyph editor on a `fb_width` by `fb_height`
    /// framebuffer, so that the editor grid is centred.
    pub fn calculate_editor_offset(&self, fb_width: u32, fb_height: u32) -> (offset: (u32, u32))
        requires
            self@.width <= u8::MAX,
            self@.height <= u8::MAX,
            fb_width / 2 >= self@.width * 8,
            fb_height / 2 >= self@.height * 8,
        ensures
            offset == editor_offset(fb_width, fb_height, self@.width, self@.height),
    {
        let fw = self.width as u32;
        let fh = self.height as u32;
        let x = fb_width / 2 - fw * EDITOR_CELL_SIZE / 2;
        let y = fb_height / 2 - fh * EDITOR_CELL_SIZE / 2;
        (x, y)
    }

    /// Removes the top row of every glyph.
    pub fn decrease_height(&mut self)
        requires
            old(self).wf(),
            old(self)@.height > 0,
        ensures
            final(self).wf(),
            final(self)@ == (FontModel {
                height: (old(self)@.height - 1) as nat,
                glyphs: old(self)@.glyphs.map_values(|g: BitGrid| g.without_top_row()),
                ..old(self)@
            }),
    {
        self.height = self.height - 1;
        let n = self.glyphs.len();
        for i in 0..n
            invariant
                n == self.glyphs@.len(),
                n == old(self).glyphs@.len(),
                self.height == old(self).height - 1,
                self.width == old(self).width,
                self.version == old(self).version,
                old(self).wf(),
                forall|j: int|
                    0 <= j < n ==> (#[trigger] self.glyphs@[j]).wf() && self.glyphs@[j]@ == if j
                        < i {
                        old(self).glyphs@[j]@.without_top_row()
                    } else {
                        old(self).glyphs@[j]@
                    },
        {
            proof {
                assert(old(self)@.glyphs[i as int] == old(self).glyphs@[i as int]@);
            }
            self.glyphs[i].decrease_height();
        }
        proof {
            assert(self@.glyphs =~= old(self)@.glyphs.map_values(|g: BitGrid| g.without_top_row()));
        }
    }

    /// Reads a PSF1 font; `None` when the file does not start with the
    /// PSF1 magic bytes.
    pub fn from_file(file: &[u8]) -> (font: Option<Self>)
        requires
            file@.len() >= 2,
            psf1_magic(file@) ==> psf1_complete(file@),
        ensures
            font is Some <==> psf1_magic(file@),
            font matches Some(f) ==> f.wf() && f@ == psf1_font(file@),
    {
        if file[0] == PSF1_MAGIC0 && file[1] == PSF1_MAGIC1 {
            return Some(Self::parse_psf1(file));
        }
        None
    }

    /// The font of a complete PSF1 file.
    pub fn parse_psf1(file: &[u8]) -> (font: Self)
        requires
            psf1_complete(file@),
        ensures
            font.wf(),
            font@ == psf1_font(file@),
    {
        let height = file[3];
        let glyphs = Self::parse_psf1_glyphs(height, file);
        let font = Font { version: 1, width: 8, height, glyphs };
        proof {
            assert(font@.glyphs =~= psf1_font(file@).glyphs);
        }
        font
    }

    /// The glyph table of a PSF1 file, read as glyphs `height` rows tall
    /// (whatever the header's height byte holds); the file must hold the
    /// whole table for that height.
    pub fn parse_psf1_glyphs(height: u8, file: &[u8]) -> (glyphs: Vec<BitMatrix>)
        requires
            file@.len() >= 4,
            4 + psf1_glyph_count(file@[2]) * height <= file@.len(),
        ensures
            glyphs@.len() == psf1_glyph_count(file@[2]),
            forall|i: int|
                0 <= i < glyphs@.len() ==> (#[trigger] glyphs@[i]).wf() && glyphs@[i]@
                    == psf1_glyph(file@, height as nat, i),
    {
        let mode = file[2];
        let num_glyphs: usize = if mode & PSF1_MODE512 != 0 {
            512
        } else {
            256
        };
        let mut glyphs: Vec<BitMatrix> = Vec::new();
        let flen = file.len();
        let ghost n = psf1_glyph_count(file@[2]);
        let ghost hh = height as nat;
        for i in 0..num_glyphs
            invariant
                file@.len() >= 4,
                4 + psf1_glyph_count(file@[2]) * height <= file@.len(),
                hh == height as nat,
                num_glyphs == n,
                flen == file@.len(),
                n == psf1_glyph_count(file@[2]),
                glyphs@.len() == i,
                forall|j: int|
                    0 <= j < i ==> (#[trigger] glyphs@[j]).wf() && glyphs@[j]@ == psf1_glyph(
                        file@,
                        hh,
                        j,
                    ),
        {
            let mut glyph = BitMatrix::new(8, height);
            proof {
                assert(i * hh <= n * hh) by (nonlinear_arith)
                    requires
                        i < n,
                ;
            }
            let offset: usize = i * height as usize;
            proof {
                let target = psf1_glyph_prefix(file@, hh, i as int, 0, 0);
                assert forall|r: int| 0 <= r < hh implies #[trigger] glyph@.rows[r]
                    =~= target.rows[r] by {}
                assert(glyph@.rows =~= target.rows);
            }
            for h in 0..height
                invariant
                    file@.len() >= 4,
                    4 + psf1_glyph_count(file@[2]) * height <= file@.len(),
                    hh == height as nat,
                    n == psf1_glyph_count(file@[2]),
                    i < n,
                    offset == i * hh,
                    glyph.wf(),
                    glyph@ == psf1_glyph_prefix(file@, hh, i as int, h as int, 0),
            {
                proof {
                    lemma_index_in_range(hh as int, n as int, h as int, i as int);
                }
                let row = file[4 + offset + h as usize];
                for bit in 0..8u8
                    invariant
                        file@.len() >= 4,
                        4 + psf1_glyph_count(file@[2]) * height <= file@.len(),
                        hh == height as nat,
                        i < n,
                        h < hh,
                        offset == i * hh,
                        row == psf1_row_byte(file@, hh, i as int, h as int),
                        glyph.wf(),
                        glyph@ == psf1_glyph_prefix(file@, hh, i as int, h as int, bit as int),
                {
                    let mask: u8 = 1u8 << bit;
                    proof {
                        lemma_mask_bit(row, bit);
                    }
                    let ghost before = glyph@;
                    if row & mask != 0 {
                        glyph.set((8 - bit - 1) as usize, h as usize);
                    }
                    proof {
                        let target = psf1_glyph_prefix(file@, hh, i as int, h as int, bit + 1);
                        assert forall|r: int| 0 <= r < hh implies #[trigger] glyph@.rows[r]
                            =~= target.rows[r] by {
                            assert forall|x: int| 0 <= x < 8 implies glyph@.rows[r][x]
                                == target.rows[r][x] by {
                                if r == h && x == 7 - bit {
                                    assert(((7 - x) as u8) == bit);
                                }
                            }
                        }
                        assert(glyph@.rows =~= target.rows);
                    }
                }
                proof {
                    let target = psf1_glyph_prefix(file@, hh, i as int, h + 1, 0);
                    let cur = psf1_glyph_prefix(file@, hh, i as int, h as int, 8);
                    assert forall|r: int| 0 <= r < hh implies #[trigger] cur.rows[r]
                        =~= target.rows[r] by {}
                    assert(cur.rows =~= target.rows);
                }
            }
            proof {
                let target = psf1_glyph(file@, hh, i as int);
                let cur = psf1_glyph_prefix(file@, hh, i as int, hh as int, 0);
                assert forall|r: int| 0 <= r < hh implies #[trigger] cur.rows[r] =~= target.rows[r] by {}
                assert(cur.rows =~= target.rows);
            }
            glyphs.push(glyph);
        }
        glyphs
    }
}

} // verus!
