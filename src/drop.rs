//! One falling stream of glyphs.
use crate::color::Color;
use crate::glyphs::{get_all_unicode_chars, symbol_count, symbols};
use crate::random::random_in;
use vstd::arithmetic::div_mod::lemma_add_mod_noop;
use vstd::prelude::*;

verus! {

/// One cell of a drop: the glyph shown and its colour.
#[derive(Clone, Copy, Debug, PartialEq, Eq, Structural)]
pub struct RainDropPart(pub char, pub Color);

/// A terminal write that a frame calls for.
#[derive(Clone, Copy, Debug, PartialEq, Eq, Structural)]
#[allow(inconsistent_fields)]
pub enum Op {
    /// Move to `(column, row)` and print `glyph` in `color`.
    Paint { column: u16, row: u16, glyph: char, color: Color },
    /// Move to `(column, row)` and print a space.
    Blank { column: u16, row: u32 },
}

/// A falling stream: `length` trailing cells and a highlighted cell below
/// them, in column `x`, whose lowest cell is at row `y`. It falls by `speed`
/// rows each tick. `id` tells drops apart and seeds the choice of glyphs.
#[derive(Clone, Copy, Debug, PartialEq, Eq, Structural)]
pub struct RainDrop {
    pub length: u8,
    pub color: Color,
    pub speed: u8,
    pub y: u32,
    pub x: u16,
    pub id: u32,
}

/// Colour of offset `i` of a drop of `length` cells whose colour is `c`: an
/// RGB colour grows from black at offset 0 by `channel / length` per offset,
/// each channel wrapping around modulo 256; any other colour stays as it is.
pub open spec fn shade(c: Color, length: u8, i: int) -> Color {
    match c {
        Color::Rgb { r, g, b } => Color::Rgb {
            r: ((i * (r / length) as int) % 256) as u8,
            g: ((i * (g / length) as int) % 256) as u8,
            b: ((i * (b / length) as int) % 256) as u8,
        },
        _ => c,
    }
}

/// `(i + 1) * s` modulo 256, from `i * s` modulo 256.
proof fn lemma_channel_step(i: int, s: int)
    requires
        0 <= i,
        0 <= s < 256,
    ensures
        ((i * s) % 256 + s) % 256 == ((i + 1) * s) % 256,
{
    lemma_add_mod_noop(i * s, s, 256);
    assert((i + 1) * s == i * s + s) by (nonlinear_arith);
}

/// Adds `step` to `channel` modulo 256.
fn channel_next(channel: u8, step: u8, Ghost(i): Ghost<int>) -> (r: u8)
    requires
        0 <= i,
        channel == (i * step) % 256,
    ensures
        r == ((i + 1) * step) % 256,
{
    proof {
        lemma_channel_step(i, step as int);
    }
    channel.wrapping_add(step)
}

impl RainDrop {
    /// The drop's invariant: it has at least one trailing cell and moves.
    pub open spec fn wf(self) -> bool {
        self.length >= 1 && self.speed >= 1
    }

    /// How many trailing cells are coloured: none for `Color::Reset`, else
    /// `length`.
    pub open spec fn gradient_len(self) -> nat {
        if self.color == Color::Reset {
            0
        } else {
            self.length as nat
        }
    }

    /// Index into the symbol table of the glyph of offset `i`.
    pub open spec fn glyph_index(self, i: int) -> int {
        (31 * (self.id + self.y + i)) % (symbol_count() as int)
    }

    /// The glyph of offset `i`.
    pub open spec fn glyph(self, i: int) -> char {
        symbols()[self.glyph_index(i)]
    }

    /// The cells of the drop, from the top one (offset 0) down: the coloured
    /// trailing cells, then one white cell.
    pub open spec fn parts(self) -> Seq<RainDropPart> {
        Seq::new(
            self.gradient_len() + 1,
            |i: int|
                if i < self.gradient_len() {
                    RainDropPart(self.glyph(i), shade(self.color, self.length, i))
                } else {
                    RainDropPart(self.glyph(i), Color::White)
                },
        )
    }

    /// Row of offset `i`; negative above the top of the screen.
    pub open spec fn cell_row(self, i: int) -> int {
        self.y + i - self.length
    }

    /// Whether offset `i` lies on a screen of `height` rows.
    pub open spec fn cell_visible(self, i: int, height: int) -> bool {
        0 <= self.cell_row(i) < height
    }

    /// The write that paints offset `i`.
    pub open spec fn paint_op(self, i: int) -> Op {
        Op::Paint {
            column: self.x,
            row: self.cell_row(i) as u16,
            glyph: self.parts()[i].0,
            color: self.parts()[i].1,
        }
    }

    /// The writes that paint the visible ones among the first `n` offsets, in
    /// order.
    pub open spec fn paint_ops(self, height: int, n: nat) -> Seq<Op>
        decreases n,
    {
        if n == 0 {
            Seq::empty()
        } else {
            let prev = self.paint_ops(height, (n - 1) as nat);
            if self.cell_visible(n - 1, height) {
                prev.push(self.paint_op(n - 1))
            } else {
                prev
            }
        }
    }

    /// Row of the drop's top cell; negative above the top of the screen.
    pub open spec fn top_row(self) -> int {
        self.y - self.length
    }

    /// How many rows `clear_tail` blanks: the `speed` rows above the top
    /// cell, less those above the screen.
    pub open spec fn blank_count(self) -> nat {
        if self.top_row() <= 0 {
            0
        } else if self.top_row() < self.speed {
            self.top_row() as nat
        } else {
            self.speed as nat
        }
    }

    /// The blank writes on the rows just above the drop's top cell, nearest
    /// first, that lie on or below the first row of the screen.
    pub open spec fn blank_ops(self) -> Seq<Op> {
        Seq::new(
            self.blank_count(),
            |j: int| Op::Blank { column: self.x, row: (self.top_row() - 1 - j) as u32 },
        )
    }

    /// Whether the whole drop has passed below a screen of `height` rows.
    pub open spec fn exhausted(self, height: int) -> bool {
        self.y - self.length > height
    }

    /// The drop one tick later.
    pub open spec fn fallen(self) -> RainDrop {
        RainDrop { y: (self.y + self.speed) as u32, ..self }
    }

    /// A new drop of `length` cells in `color` at column `x`, near the top of
    /// the screen (its lowest row is drawn from 1 to 7) and falling 1 or 2
    /// rows a tick.
    pub fn new(length: u8, color: Color, x: u16, id: u32) -> (d: RainDrop)
        requires
            length >= 1,
        ensures
            d.wf(),
            d.length == length,
            d.color == color,
            d.x == x,
            d.id == id,
            1 <= d.y < 8,
            1 <= d.speed < 3,
    {
        let y = random_in(1, 8);
        let speed = random_in(1, 3) as u8;
        RainDrop { length, color, x, y, speed, id }
    }

    /// The glyph of offset `i`: an entry of the symbol table picked by a hash
    /// of the drop's id, its row and the offset.
    pub fn get_char_for_part(&self, i: usize) -> (c: char)
        requires
            i <= u32::MAX,
        ensures
            c == self.glyph(i as int),
    {
        let hash: u64 = 31 * (self.id as u64 + self.y as u64 + i as u64);
        let all = get_all_unicode_chars();
        all[(hash % all.len() as u64) as usize]
    }

    /// The drop's cells, from offset 0 to the white cell below them.
    pub fn get_parts(&self) -> (res: Vec<RainDropPart>)
        requires
            self.wf(),
        ensures
            res@ == self.parts(),
            self.color != Color::Reset ==> res@.len() == self.length + 1,
            res@.last().1 == Color::White,
            self.color is Rgb ==> res@[0].1 == (Color::Rgb { r: 0, g: 0, b: 0 }),
    {
        let mut res: Vec<RainDropPart> = Vec::new();
        match self.color {
            Color::Reset => {},
            Color::Rgb { r, g, b } => {
                let mut new_r: u8 = 0;
                let mut new_g: u8 = 0;
                let mut new_b: u8 = 0;
                let step_r: u8 = r / self.length;
                let step_g: u8 = g / self.length;
                let step_b: u8 = b / self.length;
                let mut i: u8 = 0;
                while i < self.length
                    invariant
                        self.wf(),
                        self.color == (Color::Rgb { r, g, b }),
                        step_r == r / self.length,
                        step_g == g / self.length,
                        step_b == b / self.length,
                        i <= self.length,
                        new_r == (i * step_r) % 256,
                        new_g == (i * step_g) % 256,
                        new_b == (i * step_b) % 256,
                        res@.len() == i,
                        forall|k: int| 0 <= k < i ==> res@[k] == self.parts()[k],
                    decreases self.length - i,
                {
                    res.push(RainDropPart(self.get_char_for_part(i as usize), Color::Rgb { r: new_r, g: new_g, b: new_b }));
                    new_r = channel_next(new_r, step_r, Ghost(i as int));
                    new_g = channel_next(new_g, step_g, Ghost(i as int));
                    new_b = channel_next(new_b, step_b, Ghost(i as int));
                    i = i + 1;
                }
            },
            _ => {
                let mut i: u8 = 0;
                while i < self.length
                    invariant
                        self.wf(),
                        self.color != Color::Reset,
                        !(self.color is Rgb),
                        i <= self.length,
                        res@.len() == i,
                        forall|k: int| 0 <= k < i ==> res@[k] == self.parts()[k],
                    decreases self.length - i,
                {
                    res.push(RainDropPart(self.get_char_for_part(i as usize), self.color));
                    i = i + 1;
                }
            },
        }
        let last = RainDropPart(self.get_char_for_part(res.len()), Color::White);
        res.push(last);
        assert(res@ =~= self.parts());
        res
    }

    /// The writes that paint the drop on a screen of `height` rows: one for
    /// each cell whose row lies on the screen, in order of offset. Cells
    /// above or below the screen are skipped.
    pub fn draw(&self, height: u16) -> (ops: Vec<Op>)
        requires
            self.wf(),
        ensures
            ops@ == self.paint_ops(height as int, self.parts().len()),
            forall|k: int|
                0 <= k < ops@.len() ==> match #[trigger] ops@[k] {
                    Op::Paint { column, row, .. } => column == self.x && row < height,
                    Op::Blank { .. } => false,
                },
    {
        let parts = self.get_parts();
        let mut ops: Vec<Op> = Vec::new();
        let mut i: usize = 0;
        while i < parts.len()
            invariant
                parts@ == self.parts(),
                i <= parts@.len(),
                ops@ == self.paint_ops(height as int, i as nat),
                forall|k: int|
                    0 <= k < ops@.len() ==> match #[trigger] ops@[k] {
                        Op::Paint { column, row, .. } => column == self.x && row < height,
                        Op::Blank { .. } => false,
                    },
            decreases parts@.len() - i,
        {
            let top = self.y as u64 + i as u64;
            if top >= self.length as u64 && top - (self.length as u64) < height as u64 {
                let row = (top - self.length as u64) as u16;
                ops.push(Op::Paint { column: self.x, row, glyph: parts[i].0, color: parts[i].1 });
            }
            i = i + 1;
        }
        ops
    }

    /// The writes that blank the `speed` rows just above the drop's top
    /// cell, which it has left in its last fall, nearest first. Rows above
    /// the screen are skipped.
    pub fn clear_tail(&self) -> (ops: Vec<Op>)
        ensures
            ops@ == self.blank_ops(),
    {
        let top: u32 = if self.y >= self.length as u32 {
            self.y - self.length as u32
        } else {
            0
        };
        let mut ops: Vec<Op> = Vec::new();
        let mut j: u8 = 0;
        while j < self.speed && (j as u32) < top
            invariant
                j <= self.speed,
                j <= top,
                top == (if self.top_row() <= 0 { 0 } else { self.top_row() }),
                ops@ == self.blank_ops().take(j as int),
            decreases self.speed - j,
        {
            ops.push(Op::Blank { column: self.x, row: top - 1 - j as u32 });
            assert(ops@ =~= self.blank_ops().take(j + 1));
            j = j + 1;
        }
        assert(ops@ =~= self.blank_ops());
        ops
    }

    /// Whether the whole drop has passed below a screen of `height` rows.
    pub fn is_end(&self, height: u16) -> (r: bool)
        ensures
            r == self.exhausted(height as int),
    {
        self.y.saturating_sub(self.length as u32) > height as u32
    }

    /// Moves the drop down by `speed` rows.
    pub fn fall(&mut self)
        requires
            old(self).y + old(self).speed <= u32::MAX,
        ensures
            *final(self) == old(self).fallen(),
    {
        self.y = self.y + self.speed as u32;
    }
}

} // verus!
