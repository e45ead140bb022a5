//! A screen full of drops, recycled as they fall out of sight.
use crate::color::{Color, ColorExt};
use crate::drop::{Op, RainDrop};
use crate::random::random_in;
use std::ops::Range;
use vstd::arithmetic::div_mod::{lemma_add_mod_noop, lemma_small_mod};
use vstd::prelude::*;

verus! {

/// Frame delay, in milliseconds, where none is given.
pub const DEFAULT_FRAME_DELAY_MS: u64 = 150;

/// How new drops are coloured.
#[derive(Clone, Copy, Debug, PartialEq, Eq, Structural)]
pub enum RainStyle {
    /// Every drop in this one colour.
    Solid(Color),
    /// Each drop in an RGB colour of its own, each channel drawn from 0 to 254.
    Rainbow,
}

/// The id that follows `id`, wrapping around after `u32::MAX`.
pub open spec fn next_id_after(id: u32) -> u32 {
    ((id + 1) % 0x1_0000_0000) as u32
}

/// Every drop of `ds`, one tick later.
pub open spec fn fallen_all(ds: Seq<RainDrop>) -> Seq<RainDrop> {
    ds.map_values(|d: RainDrop| d.fallen())
}

/// The writes that paint each drop of `ds` on a screen of `height` rows,
/// drop after drop.
pub open spec fn frame_paints(ds: Seq<RainDrop>, height: int) -> Seq<Op>
    decreases ds.len(),
{
    if ds.len() == 0 {
        Seq::empty()
    } else {
        frame_paints(ds.drop_last(), height) + ds.last().paint_ops(height, ds.last().parts().len())
    }
}

/// The writes that blank the rows each drop of `ds` has just left, drop
/// after drop.
pub open spec fn frame_blanks(ds: Seq<RainDrop>) -> Seq<Op>
    decreases ds.len(),
{
    if ds.len() == 0 {
        Seq::empty()
    } else {
        frame_blanks(ds.drop_last()) + ds.last().blank_ops()
    }
}

/// What is left of `ds` when, from index `i` on, each drop that has passed
/// below a screen of `height` rows is swap-removed: the last drop takes its
/// place and is looked at next.
pub open spec fn sweep(ds: Seq<RainDrop>, i: nat, height: int) -> Seq<RainDrop>
    decreases ds.len() - i,
{
    if i >= ds.len() {
        ds
    } else if ds[i as int].exhausted(height) {
        sweep(ds.update(i as int, ds.last()).drop_last(), i, height)
    } else {
        sweep(ds, i + 1, height)
    }
}

/// Of a sweep: no drop left has passed below the screen, each was in `ds`,
/// and each drop of `ds` that has not passed below it is left.
pub proof fn lemma_sweep(ds: Seq<RainDrop>, i: nat, height: int)
    requires
        i <= ds.len(),
        forall|j: int| 0 <= j < i ==> !(#[trigger] ds[j]).exhausted(height),
    ensures
        sweep(ds, i, height).len() <= ds.len(),
        forall|j: int|
            0 <= j < sweep(ds, i, height).len() ==> !(#[trigger] sweep(ds, i, height)[j]).exhausted(height)
                && ds.contains(sweep(ds, i, height)[j]),
        forall|j: int|
            0 <= j < ds.len() && !(#[trigger] ds[j]).exhausted(height) ==> sweep(ds, i, height).contains(
                ds[j],
            ),
    decreases ds.len() - i,
{
    let r = sweep(ds, i, height);
    if i >= ds.len() {
        assert forall|j: int| 0 <= j < r.len() implies ds.contains(#[trigger] r[j]) by {
            assert(ds[j] == r[j]);
        }
        assert forall|j: int| 0 <= j < ds.len() && !(#[trigger] ds[j]).exhausted(height) implies r.contains(ds[j]) by {
            assert(r[j] == ds[j]);
        }
    } else if ds[i as int].exhausted(height) {
        let next = ds.update(i as int, ds.last()).drop_last();
        assert forall|j: int| 0 <= j < i implies !(#[trigger] next[j]).exhausted(height) by {
            assert(next[j] == ds[j]);
        }
        lemma_sweep(next, i, height);
        assert forall|j: int| 0 <= j < r.len() implies ds.contains(#[trigger] r[j]) by {
            let k = choose|k: int| 0 <= k < next.len() && next[k] == r[j];
            if k == i {
                assert(ds[ds.len() - 1] == r[j]);
            } else {
                assert(ds[k] == r[j]);
            }
        }
        assert forall|j: int| 0 <= j < ds.len() && !(#[trigger] ds[j]).exhausted(height) implies r.contains(ds[j]) by {
            if j == ds.len() - 1 {
                assert(next[i as int] == ds[j]);
            } else {
                assert(next[j] == ds[j]);
            }
        }
    } else {
        lemma_sweep(ds, i + 1, height);
    }
}

/// The simulation: `drops_count` drops whose lengths lie in
/// `drop_length_range`, coloured by `style`, redrawn every `frame_delay_ms`
/// milliseconds. `next_id` is the id that the next new drop gets.
pub struct Rain {
    pub drops_count: usize,
    pub drop_length_range: Range<u8>,
    pub frame_delay_ms: u64,
    pub style: RainStyle,
    pub drops: Vec<RainDrop>,
    pub next_id: u32,
}

impl Rain {
    /// Whether drop lengths can be drawn: the range is not empty and holds
    /// positive lengths only.
    pub open spec fn length_range_ok(self) -> bool {
        1 <= self.drop_length_range.start < self.drop_length_range.end
    }

    /// Whether `d`'s colour is one that `style` gives.
    pub open spec fn fits_style(self, d: RainDrop) -> bool {
        match self.style {
            RainStyle::Solid(c) => d.color == c,
            RainStyle::Rainbow => match d.color {
                Color::Rgb { r, g, b } => r < 255 && g < 255 && b < 255,
                _ => false,
            },
        }
    }

    /// Whether `d` is a drop that this field can hold: well formed, of a
    /// length in range, coloured by the style, and not yet past the largest
    /// screen.
    pub open spec fn holds(self, d: RainDrop) -> bool {
        &&& d.wf()
        &&& self.drop_length_range.start <= d.length < self.drop_length_range.end
        &&& self.fits_style(d)
        &&& d.y - d.length <= u16::MAX
    }

    /// Whether `d` is a new drop for a screen `width` columns wide, with id
    /// `id` taken modulo 2^32: held by this field, in a column of the
    /// screen, near its top.
    pub open spec fn new_drop(self, d: RainDrop, width: int, id: int) -> bool {
        &&& self.holds(d)
        &&& d.x < width
        &&& 1 <= d.y < 8
        &&& 1 <= d.speed < 3
        &&& d.id == id % 0x1_0000_0000
    }

    /// Whether `d` is what `add_new_drop` makes for a screen `width` columns
    /// wide: a new drop with the field's next id.
    pub open spec fn fresh(self, d: RainDrop, width: int) -> bool {
        self.new_drop(d, width, self.next_id as int)
    }

    /// The field's invariant: `drops_count` drops, each held by the field,
    /// and lengths that can be drawn where there are drops to make.
    pub open spec fn wf(self) -> bool {
        &&& self.drops_count > 0 ==> self.length_range_ok()
        &&& self.drops@.len() == self.drops_count
        &&& forall|i: int| 0 <= i < self.drops@.len() ==> self.holds(#[trigger] self.drops@[i])
    }

    /// Whether `self` and `other` differ in their drops and next id at most.
    pub open spec fn same_settings(self, other: Rain) -> bool {
        &&& self.drops_count == other.drops_count
        &&& self.drop_length_range == other.drop_length_range
        &&& self.frame_delay_ms == other.frame_delay_ms
        &&& self.style == other.style
    }

    /// A field of `drops_count` new drops for a screen `width` columns wide,
    /// with ids from 0 on. The frame delay is `frame_delay_ms`, or
    /// `DEFAULT_FRAME_DELAY_MS` where none is given.
    pub fn new(
        drops_count: usize,
        drop_length: Range<u8>,
        style: RainStyle,
        frame_delay_ms: Option<u64>,
        width: u16,
    ) -> (s: Rain)
        requires
            drops_count > 0 ==> 1 <= drop_length.start < drop_length.end && width > 0,
        ensures
            s.wf(),
            s.drops_count == drops_count,
            s.drop_length_range == drop_length,
            s.style == style,
            s.frame_delay_ms == frame_delay_ms.unwrap_or(DEFAULT_FRAME_DELAY_MS),
            forall|i: int|
                0 <= i < s.drops@.len() ==> {
                    let d = #[trigger] s.drops@[i];
                    d.x < width && 1 <= d.y < 8 && 1 <= d.speed < 3 && d.id == i % 0x1_0000_0000
                },
            s.next_id == (drops_count as int) % 0x1_0000_0000,
    {
        let mut s = Rain {
            drops_count,
            drop_length_range: drop_length,
            style,
            frame_delay_ms: frame_delay_ms.unwrap_or(DEFAULT_FRAME_DELAY_MS),
            drops: Vec::with_capacity(drops_count),
            next_id: 0,
        };
        let mut n: usize = 0;
        while n < drops_count
            invariant
                n <= drops_count,
                drops_count > 0 ==> s.length_range_ok(),
                s.drops_count == drops_count,
                s.drop_length_range == drop_length,
                s.style == style,
                s.frame_delay_ms == frame_delay_ms.unwrap_or(DEFAULT_FRAME_DELAY_MS),
                drops_count > 0 ==> width > 0,
                s.drops@.len() == n,
                s.next_id == (n as int) % 0x1_0000_0000,
                forall|i: int|
                    0 <= i < s.drops@.len() ==> {
                        let d = #[trigger] s.drops@[i];
                        s.holds(d) && d.x < width && 1 <= d.y < 8 && 1 <= d.speed < 3 && d.id == i
                            % 0x1_0000_0000
                    },
            decreases drops_count - n,
        {
            let ghost prev = s.drops@;
            s.add_new_drop(width);
            assert forall|i: int| 0 <= i < s.drops@.len() implies {
                let d = #[trigger] s.drops@[i];
                s.holds(d) && d.x < width && 1 <= d.y < 8 && 1 <= d.speed < 3 && d.id == i
                    % 0x1_0000_0000
            } by {
                if i < prev.len() {
                    assert(s.drops@.drop_last()[i] == prev[i]);
                }
            }
            assert(s.next_id == (n + 1) as int % 0x1_0000_0000) by {
                lemma_add_mod_noop(n as int, 1, 0x1_0000_0000);
            }
            n = n + 1;
        }
        s
    }

    /// One frame on a screen of `width` columns and `height` rows. Every
    /// drop is painted, falls by its speed and has the rows it left blanked;
    /// all paints come first, drop after drop, then all blanks. The drops
    /// that have then passed below the screen are swap-removed (see `sweep`)
    /// and as many new drops appended, with the next ids, so that the field
    /// holds `drops_count` drops again.
    pub fn tick(&mut self, width: u16, height: u16) -> (ops: Vec<Op>)
        requires
            old(self).wf(),
            old(self).drops_count > 0 ==> width > 0,
        ensures
            final(self).wf(),
            final(self).same_settings(*old(self)),
            final(self).drops@.len() == old(self).drops_count,
            ops@ == frame_paints(old(self).drops@, height as int) + frame_blanks(
                fallen_all(old(self).drops@),
            ),
            ({
                let kept = sweep(fallen_all(old(self).drops@), 0, height as int);
                &&& final(self).drops@.take(kept.len() as int) == kept
                &&& forall|k: int|
                    kept.len() <= k < final(self).drops@.len() ==> old(self).new_drop(
                        #[trigger] final(self).drops@[k],
                        width as int,
                        old(self).next_id + k - kept.len(),
                    )
                &&& final(self).next_id == (old(self).next_id + old(self).drops_count - kept.len())
                    % 0x1_0000_0000
            }),
            forall|k: int|
                0 <= k < ops@.len() ==> match #[trigger] ops@[k] {
                    Op::Paint { row, .. } => row < height,
                    Op::Blank { .. } => true,
                },
    {
        let ghost start = self.drops@;
        let ghost h = height as int;
        let n = self.drops.len();
        let mut paints: Vec<Op> = Vec::new();
        let mut blanks: Vec<Op> = Vec::new();
        let mut i: usize = 0;
        while i < n
            invariant
                *self == (Rain { drops: self.drops, ..*old(self) }),
                old(self).wf(),
                start == old(self).drops@,
                h == height as int,
                n == self.drops@.len(),
                n == start.len(),
                i <= n,
                forall|j: int| 0 <= j < i ==> self.drops@[j] == (#[trigger] start[j]).fallen(),
                forall|j: int| i <= j < n ==> self.drops@[j] == start[j],
                paints@ == frame_paints(start.take(i as int), h),
                blanks@ == frame_blanks(fallen_all(start).take(i as int)),
                forall|k: int| 0 <= k < blanks@.len() ==> (#[trigger] blanks@[k]) is Blank,
                forall|k: int|
                    0 <= k < paints@.len() ==> match #[trigger] paints@[k] {
                        Op::Paint { row, .. } => row < height,
                        Op::Blank { .. } => true,
                    },
            decreases n - i,
        {
            let mut d = self.drops[i];
            assert(old(self).holds(start[i as int]));
            let ghost before = paints@;
            let mut drawn = d.draw(height);
            let ghost added = drawn@;
            paints.append(&mut drawn);
            assert forall|k: int| 0 <= k < paints@.len() implies match #[trigger] paints@[k] {
                Op::Paint { row, .. } => row < height,
                Op::Blank { .. } => true,
            } by {
                if k < before.len() {
                    assert(paints@[k] == before[k]);
                } else {
                    assert(paints@[k] == added[k - before.len()]);
                }
            }
            assert(start.take(i + 1).drop_last() =~= start.take(i as int));
            assert(start.take(i + 1).last() == start[i as int]);
            assert(paints@ == before + added);
            assert(added == start[i as int].paint_ops(h, start[i as int].parts().len()));
            assert(frame_paints(start.take(i + 1), h) == frame_paints(start.take(i + 1).drop_last(), h)
                + start.take(i + 1).last().paint_ops(h, start.take(i + 1).last().parts().len()));
            d.fall();
            let ghost before_blanks = blanks@;
            let mut cleared = d.clear_tail();
            let ghost added_blanks = cleared@;
            blanks.append(&mut cleared);
            assert(fallen_all(start).take(i + 1).drop_last() =~= fallen_all(start).take(i as int));
            assert(fallen_all(start).take(i + 1).last() == d);
            assert(blanks@ == before_blanks + added_blanks);
            assert forall|k: int| 0 <= k < blanks@.len() implies (#[trigger] blanks@[k]) is Blank by {
                if k < before_blanks.len() {
                    assert(blanks@[k] == before_blanks[k]);
                } else {
                    assert(blanks@[k] == added_blanks[k - before_blanks.len()]);
                }
            }
            self.drops.set(i, d);
            i = i + 1;
        }
        assert(start.take(n as int) =~= start);
        assert(fallen_all(start).take(n as int) =~= fallen_all(start));
        assert(self.drops@ =~= fallen_all(start));
        let ghost fallen = self.drops@;
        let ghost kept = sweep(fallen, 0, h);
        proof {
            lemma_sweep(fallen, 0, h);
        }
        let mut i: usize = 0;
        while i < self.drops.len()
            invariant
                *self == (Rain { drops: self.drops, ..*old(self) }),
                h == height as int,
                i <= self.drops@.len(),
                self.drops@.len() <= n,
                forall|j: int| 0 <= j < i ==> !(#[trigger] self.drops@[j]).exhausted(h),
                sweep(self.drops@, i as nat, h) == kept,
            decreases self.drops@.len() - i,
        {
            let gone = self.drops[i].is_end(height);
            assert(gone == self.drops@[i as int].exhausted(h));
            if gone {
                let ghost full = self.drops@;
                assert(sweep(full, i as nat, h) == sweep(
                    full.update(i as int, full.last()).drop_last(),
                    i as nat,
                    h,
                ));
                self.drops.swap_remove(i);
                assert forall|j: int| 0 <= j < i implies !(#[trigger] self.drops@[j]).exhausted(h) by {
                    assert(self.drops@[j] == full[j]);
                }
            } else {
                assert(sweep(self.drops@, i as nat, h) == sweep(self.drops@, (i + 1) as nat, h));
                i = i + 1;
            }
        }
        assert(self.drops@ == kept);
        assert forall|j: int| 0 <= j < kept.len() implies old(self).holds(#[trigger] kept[j]) by {
            let k = choose|k: int| 0 <= k < fallen.len() && fallen[k] == kept[j];
            assert(old(self).holds(start[k]));
        }
        let kept_len = self.drops.len();
        while self.drops.len() < n
            invariant
                self.same_settings(*old(self)),
                old(self).wf(),
                n > 0 ==> width > 0,
                n == old(self).drops_count,
                kept_len == kept.len(),
                kept_len <= self.drops@.len() <= n,
                self.drops@.take(kept_len as int) == kept,
                forall|j: int| 0 <= j < self.drops@.len() ==> old(self).holds(#[trigger] self.drops@[j]),
                forall|k: int|
                    kept_len <= k < self.drops@.len() ==> old(self).new_drop(
                        #[trigger] self.drops@[k],
                        width as int,
                        old(self).next_id + k - kept_len,
                    ),
                self.next_id == (old(self).next_id + self.drops@.len() - kept_len) % 0x1_0000_0000,
            decreases n - self.drops@.len(),
        {
            let ghost prev = self.drops@;
            self.add_new_drop(width);
            proof {
                let x = old(self).next_id + prev.len() - kept_len;
                lemma_add_mod_noop(x, 1, 0x1_0000_0000);
                lemma_small_mod((x % 0x1_0000_0000) as nat, 0x1_0000_0000);
                assert forall|j: int| 0 <= j < prev.len() implies self.drops@[j] == prev[j] by {
                    assert(self.drops@.drop_last()[j] == prev[j]);
                }
                assert forall|j: int| 0 <= j < self.drops@.len() implies old(self).holds(
                    #[trigger] self.drops@[j],
                ) by {
                    if j < prev.len() {
                        assert(self.drops@[j] == prev[j]);
                    }
                }
                assert forall|k: int| kept_len <= k < self.drops@.len() implies old(self).new_drop(
                    #[trigger] self.drops@[k],
                    width as int,
                    old(self).next_id + k - kept_len,
                ) by {
                    if k < prev.len() {
                        assert(self.drops@[k] == prev[k]);
                    }
                }
                assert(self.drops@.take(kept_len as int) =~= prev.take(kept_len as int));
            }
        }
        assert(self.drops@.take(kept_len as int) == kept);
        let ghost all_paints = paints@;
        let ghost all_blanks = blanks@;
        paints.append(&mut blanks);
        assert forall|k: int| 0 <= k < paints@.len() implies match #[trigger] paints@[k] {
            Op::Paint { row, .. } => row < height,
            Op::Blank { .. } => true,
        } by {
            if k < all_paints.len() {
                assert(paints@[k] == all_paints[k]);
            } else {
                assert(paints@[k] == all_blanks[k - all_paints.len()]);
            }
        }
        paints
    }

    /// Appends a new drop for a screen `width` columns wide: its length drawn
    /// from `drop_length_range`, its column from `0..width`, its colour from
    /// `style`.
    pub fn add_new_drop(&mut self, width: u16)
        requires
            old(self).length_range_ok(),
            width > 0,
            old(self).drops@.len() < usize::MAX,
        ensures
            final(self).same_settings(*old(self)),
            final(self).drops@.len() == old(self).drops@.len() + 1,
            final(self).drops@.drop_last() == old(self).drops@,
            old(self).fresh(final(self).drops@.last(), width as int),
            final(self).next_id == next_id_after(old(self).next_id),
    {
        let len = random_in(self.drop_length_range.start as u32, self.drop_length_range.end as u32) as u8;
        let x = random_in(0, width as u32) as u16;
        let color = match self.style {
            RainStyle::Solid(color) => color,
            RainStyle::Rainbow => <Color as ColorExt>::rgb(
                random_in(0, 255) as u8,
                random_in(0, 255) as u8,
                random_in(0, 255) as u8,
            ),
        };
        let d = RainDrop::new(len, color, x, self.next_id);
        self.next_id = self.next_id.wrapping_add(1);
        self.drops.push(d);
        proof {
            assert(self.drops@.drop_last() =~= old(self).drops@);
        }
    }
}

} // verus!
