use vstd::prelude::*;

use crate::layout::{lemma_index_in_range, lemma_index_injective, lemma_row_in_range};

verus! {

/// A grid of bits: `rows[y][x]` is the bit in column `x` of row `y`.
pub struct BitGrid {
    pub width: nat,
    pub rows: Seq<Seq<bool>>,
}

impl BitGrid {
    pub open spec fn height(self) -> nat {
        self.rows.len()
    }

    /// Every row is `width` bits long.
    pub open spec fn wf(self) -> bool {
        forall|y: int| 0 <= y < self.rows.len() ==> (#[trigger] self.rows[y]).len() == self.width
    }

    pub open spec fn get(self, x: int, y: int) -> bool {
        self.rows[y][x]
    }

    pub open spec fn in_bounds(self, x: int, y: int) -> bool {
        0 <= x < self.width && 0 <= y < self.height()
    }

    /// A `width` by `height` grid of clear bits.
    pub open spec fn blank(width: nat, height: nat) -> BitGrid {
        BitGrid { width, rows: Seq::new(height, |y: int| Seq::new(width, |x: int| false)) }
    }

    /// The grid with the bit at (`x`, `y`) set to `val`.
    pub open spec fn with(self, x: int, y: int, val: bool) -> BitGrid {
        BitGrid { width: self.width, rows: self.rows.update(y, self.rows[y].update(x, val)) }
    }

    /// The grid without its top row.
    pub open spec fn without_top_row(self) -> BitGrid {
        BitGrid { width: self.width, rows: self.rows.drop_first() }
    }
}

/// Reading a bit back after writing it gives what was written, and the
/// write leaves every other bit as it was.
pub proof fn lemma_read_after_write(g: BitGrid, x: int, y: int, val: bool, px: int, py: int)
    requires
        g.wf(),
        g.in_bounds(x, y),
        g.in_bounds(px, py),
    ensures
        g.with(x, y, val).wf(),
        g.with(x, y, val).get(px, py) == if px == x && py == y {
            val
        } else {
            g.get(px, py)
        },
{
    let h = g.with(x, y, val);
    assert forall|r: int| 0 <= r < h.rows.len() implies (#[trigger] h.rows[r]).len() == h.width by {
        if r != y {
            assert(h.rows[r] == g.rows[r]);
        }
    }
}

/// Bit `b` of `byte`, counting from the least significant bit.
pub open spec fn byte_bit(byte: u8, b: u8) -> bool {
    (byte >> b) & 1u8 == 1u8
}

/// `byte` holds `row` with its leftmost pixel in the most significant bit:
/// bit `b` is set exactly when column `7 - b` exists in `row` and is set.
pub open spec fn encodes_row(byte: u8, row: Seq<bool>) -> bool {
    forall|b: u8| b < 8 ==> (#[trigger] byte_bit(byte, b) <==> (7 - b < row.len() && row[7 - b]))
}

/// A bit matrix of `width` columns and `height` rows, one `bool` per bit,
/// stored row after row.
pub struct BitMatrix {
    width: u8,
    height: u8,
    data: Vec<bool>,
}

impl View for BitMatrix {
    type V = BitGrid;

    closed spec fn view(&self) -> BitGrid {
        let w = self.width as int;
        BitGrid {
            width: self.width as nat,
            rows: Seq::new(self.height as nat, |y: int| self.data@.subrange(y * w, y * w + w)),
        }
    }
}

/// Setting the lowest clear bit of a partly built row.
proof fn lemma_or_bit(row: u8, v: u8, x: u8, b: u8)
    by (bit_vector)
    requires
        x < 8,
        v <= 1,
        b < 8,
        row >> x == 0,
    ensures
        ((row | (v << x)) >> b) & 1 == 1 <==> (if b == x {
            v == 1
        } else {
            (row >> b) & 1 == 1
        }),
        (row | (v << x)) >> (x + 1) as u8 == 0 || x == 7,
{
}

/// A byte with no bits from `x` up has bit `b` (at or above `x`) clear.
proof fn lemma_low_bits_clear(row: u8, x: u8, b: u8)
    by (bit_vector)
    requires
        x < 8,
        b < 8,
        x <= b,
        row >> x == 0,
    ensures
        (row >> b) & 1 == 0,
{
}

proof fn lemma_small_product(w: int, h: int)
    requires
        0 <= w <= 255,
        0 <= h <= 255,
    ensures
        w * h <= 65025,
{
    assert(w * h <= 65025) by (nonlinear_arith)
        requires
            0 <= w <= 255,
            0 <= h <= 255,
    ;
}

impl BitMatrix {
    /// The stored bits are exactly `width * height` long.
    pub closed spec fn wf(&self) -> bool {
        self.data@.len() == self.width as int * self.height as int
    }

    /// A well-formed matrix has rows of its width.
    pub proof fn lemma_view_wf(&self)
        requires
            self.wf(),
        ensures
            self@.wf(),
            self@.width <= u8::MAX,
            self@.height() <= u8::MAX,
    {
        assert forall|y: int| 0 <= y < self@.rows.len() implies (#[trigger] self@.rows[y]).len()
            == self@.width by {
            lemma_row_in_range(self.width as int, self.height as int, y);
        }
    }

    /// A matrix of `width` by `height` clear bits.
    pub fn new(width: u8, height: u8) -> (m: Self)
        ensures
            m.wf(),
            m@ == BitGrid::blank(width as nat, height as nat),
    {
        let w: usize = width as usize;
        let h: usize = height as usize;
        let mut data: Vec<bool> = Vec::new();
        assert(w * h <= 255 * 255) by (nonlinear_arith)
            requires
                w <= 255,
                h <= 255,
        ;
        data.resize(w * h, false);
        let m = BitMatrix { width, height, data };
        proof {
            assert forall|y: int| 0 <= y < height implies #[trigger] m@.rows[y] =~= Seq::new(
                width as nat,
                |x: int| false,
            ) by {
                lemma_row_in_range(width as int, height as int, y);
            }
            assert(m@.rows =~= BitGrid::blank(width as nat, height as nat).rows);
        }
        m
    }

    /// Sets the bit at column `x`, row `y` to `val`.
    pub fn set_to(&mut self, x: usize, y: usize, val: bool)
        requires
            old(self).wf(),
            x < old(self)@.width,
            y < old(self)@.height(),
        ensures
            final(self).wf(),
            final(self)@ == old(self)@.with(x as int, y as int, val),
    {
        let w: usize = self.width as usize;
        proof {
            lemma_index_in_range(w as int, self.height as int, x as int, y as int);
            lemma_small_product(w as int, self.height as int);
        }
        self.data.set(y * w + x, val);
        proof {
            let ghost target = old(self)@.with(x as int, y as int, val);
            assert forall|r: int| 0 <= r < self.height implies #[trigger] self@.rows[r]
                =~= target.rows[r] by {
                lemma_row_in_range(w as int, self.height as int, r);
                assert forall|c: int| 0 <= c < w implies self@.rows[r][c] == target.rows[r][c] by {
                    lemma_index_in_range(w as int, self.height as int, c, r);
                    if r * w + c == y * w + x {
                        lemma_index_injective(w as int, c, r, x as int, y as int);
                    }
                    if r == y && c != x {
                        assert(r * w + c != y * w + x);
                    }
                }
            }
            assert(self@.rows =~= target.rows);
        }
    }

    /// Sets the bit at column `x`, row `y`.
    pub fn set(&mut self, x: usize, y: usize)
        requires
            old(self).wf(),
            x < old(self)@.width,
            y < old(self)@.height(),
        ensures
            final(self).wf(),
            final(self)@ == old(self)@.with(x as int, y as int, true),
    {
        self.set_to(x, y, true);
    }

    /// The bit at column `x`, row `y`.
    pub fn get(&self, x: usize, y: usize) -> (bit: bool)
        requires
            self.wf(),
            x < self@.width,
            y < self@.height(),
        ensures
            bit == self@.get(x as int, y as int),
    {
        let w: usize = self.width as usize;
        proof {
            lemma_index_in_range(w as int, self.height as int, x as int, y as int);
            lemma_row_in_range(w as int, self.height as int, y as int);
            lemma_small_product(w as int, self.height as int);
        }
        self.data[y * w + x]
    }

    /// Clears every bit.
    pub fn clear_all(&mut self)
        requires
            old(self).wf(),
        ensures
            final(self).wf(),
            final(self)@ == BitGrid::blank(old(self)@.width, old(self)@.height()),
    {
        let n = self.data.len();
        for i in 0..n
            invariant
                n == self.data@.len(),
                self.width == old(self).width,
                self.height == old(self).height,
                self.wf(),
                forall|j: int| 0 <= j < i ==> !#[trigger] self.data@[j],
        {
            self.data.set(i, false);
        }
        proof {
            let w = self.width as int;
            assert forall|y: int| 0 <= y < self.height implies #[trigger] self@.rows[y] =~= Seq::new(
                w as nat,
                |x: int| false,
            ) by {
                lemma_row_in_range(w, self.height as int, y);
            }
            assert(self@.rows =~= BitGrid::blank(old(self)@.width, old(self)@.height()).rows);
        }
    }

    /// One byte per row, the leftmost pixel in the most significant bit.
    /// Rows are read eight columns wide, so the matrix must be eight bits
    /// wide, unless it has no rows or no columns.
    pub fn serialize(&self) -> (rows: Vec<u8>)
        requires
            self.wf(),
            self@.height() == 0 || self@.width == 0 || self@.width == 8,
        ensures
            rows@.len() == self@.height(),
            forall|y: int| 0 <= y < rows@.len() ==> encodes_row(#[trigger] rows@[y], self@.rows[y]),
    {
        let mut rows: Vec<u8> = Vec::new();
        proof {
            self.lemma_view_wf();
        }
        for y in 0..self.height
            invariant
                self.wf(),
                self@.wf(),
                self@.height() == 0 || self@.width == 0 || self@.width == 8,
                rows@.len() == y,
                forall|r: int| 0 <= r < y ==> encodes_row(#[trigger] rows@[r], self@.rows[r]),
        {
            let mut row: u8 = 0;
            assert(row >> 0u8 == 0u8) by (bit_vector)
                requires
                    row == 0u8,
            ;
            for x in 0..self.width
                invariant
                    self.wf(),
                    self@.wf(),
                    0 <= y < self@.height(),
                    self@.width == 0 || self@.width == 8,
                    row >> x == 0 || x == 8,
                    forall|b: u8| b < x ==> (#[trigger] byte_bit(row, b) <==> self@.rows[y as int][7
                        - b]),
            {
                let bit = self.get((8 - x - 1) as usize, y as usize);
                let v: u8 = if bit {
                    1
                } else {
                    0
                };
                let ghost prev = row;
                row = row | (v << x);
                proof {
                    assert forall|b: u8| b < x + 1 implies (#[trigger] byte_bit(row, b)
                        <==> self@.rows[y as int][7 - b]) by {
                        lemma_or_bit(prev, v, x, b);
                        if b < x {
                            assert(byte_bit(prev, b) <==> self@.rows[y as int][7 - b]);
                        }
                    }
                    lemma_or_bit(prev, v, x, 0);
                }
            }
            proof {
                assert forall|b: u8| b < 8 implies (#[trigger] byte_bit(row, b) <==> (7 - b
                    < self@.rows[y as int].len() && self@.rows[y as int][7 - b])) by {
                    if self@.width == 0 {
                        lemma_low_bits_clear(row, 0, b);
                    }
                }
            }
            rows.push(row);
        }
        rows
    }

    /// Drops the top row.
    pub fn decrease_height(&mut self)
        requires
            old(self).wf(),
            old(self)@.height() > 0,
        ensures
            final(self).wf(),
            final(self)@ == old(self)@.without_top_row(),
    {
        self.height = self.height - 1;
        let w: usize = self.width as usize;
        proof {
            lemma_row_in_range(w as int, old(self).height as int, 0);
        }
        self.data = self.data.split_off(w);
        proof {
            let ghost target = old(self)@.without_top_row();
            let ghost oh = old(self).height as int;
            let ghost nh = self.height as int;
            let ghost len = self.data@.len() as int;
            assert(len == w * nh) by (nonlinear_arith)
                requires
                    len == w * oh - w,
                    oh == nh + 1,
            ;
            assert forall|r: int| 0 <= r < self.height implies #[trigger] self@.rows[r]
                =~= target.rows[r] by {
                lemma_row_in_range(w as int, old(self).height as int, r + 1);
                lemma_row_in_range(w as int, self.height as int, r);
            }
            assert(self@.rows =~= target.rows);
        }
    }
}

} // verus!
