use vstd::prelude::*;
use crate::shapes::Shape;

verus! {

/// Largest number of rows a board may have, so that every feature sum fits
/// in 64 bits.
pub const MAX_HEIGHT: u32 = 1048576;

/// Largest number of columns: a row is a `u32` whose top bit stays clear.
pub const MAX_WIDTH: u32 = 31;

/// The row value with all `width` cells filled.
pub open spec fn full_mask(width: u32) -> u32 {
    ((1u32 << width) - 1) as u32
}

/// Whether the board rows `rows` overlap `s` placed with its top-left corner
/// at column `x`, row `y`.
pub open spec fn overlaps(rows: Seq<u32>, s: Shape, x: int, y: int) -> bool {
    exists|i: int|
        0 <= i < s.height && (s.rows@[i] << (x as u32)) & #[trigger] rows[y + i] != 0
}

/// Whether `s` lies outside a board of `width` x `height` at `(x, y)`.
pub open spec fn out_of_bounds(width: u32, height: u32, s: Shape, x: int, y: int) -> bool {
    x < 0 || x > width - s.width || y > height - s.height
}

/// The rows after OR-ing `s`, shifted by `x`, into rows `y .. y + s.height`.
pub open spec fn placed(rows: Seq<u32>, s: Shape, x: int, y: int) -> Seq<u32> {
    Seq::new(
        rows.len(),
        |j: int|
            if y <= j < y + s.height {
                rows[j] | (s.rows@[j - y] << (x as u32))
            } else {
                rows[j]
            },
    )
}

/// The rows of `rows` that are not `full`, in their order.
pub open spec fn survivors(rows: Seq<u32>, full: u32) -> Seq<u32>
    decreases rows.len(),
{
    if rows.len() == 0 {
        Seq::empty()
    } else if rows.last() == full {
        survivors(rows.drop_last(), full)
    } else {
        survivors(rows.drop_last(), full).push(rows.last())
    }
}

/// How many rows of `rows` equal `full`.
pub open spec fn full_count(rows: Seq<u32>, full: u32) -> nat
    decreases rows.len(),
{
    if rows.len() == 0 {
        0
    } else if rows.last() == full {
        full_count(rows.drop_last(), full) + 1
    } else {
        full_count(rows.drop_last(), full)
    }
}

/// `n` empty rows.
pub open spec fn empty_rows(n: int) -> Seq<u32> {
    Seq::new(n as nat, |i: int| 0u32)
}

/// The board after removing its full rows: as many empty rows on top as
/// were removed, then the other rows in their order.
pub open spec fn cleared(rows: Seq<u32>, full: u32) -> Seq<u32> {
    empty_rows(full_count(rows, full) as int) + survivors(rows, full)
}

/// Every row of `rows` uses only the `width` low bits.
pub open spec fn rows_fit(rows: Seq<u32>, width: u32) -> bool {
    forall|i: int| 0 <= i < rows.len() ==> #[trigger] rows[i] <= full_mask(width)
}

pub proof fn lemma_mask_facts(w: u32)
    requires
        1 <= w <= 31,
    ensures
        (1u32 << w) >= 2,
        full_mask(w) == (1u32 << w) - 1,
        full_mask(w) >= 1,
{
    assert(1 <= w <= 31 ==> (1u32 << w) >= 2) by (bit_vector);
}

proof fn lemma_shift_fits(r: u32, sw: u32, x: u32, w: u32)
    requires
        r < (1u32 << sw),
        sw + x <= w,
        w <= 31,
    ensures
        (r << x) <= full_mask(w),
{
    assert(r < (1u32 << sw) && sw + x <= w && w <= 31 ==> (r << x) <= (1u32 << w) - 1)
        by (bit_vector);
}

proof fn lemma_or_fits(a: u32, b: u32, w: u32)
    requires
        a <= full_mask(w),
        b <= full_mask(w),
        1 <= w <= 31,
    ensures
        a | b <= full_mask(w),
{
    lemma_mask_facts(w);
    assert(1 <= w <= 31 && a <= (1u32 << w) - 1 && b <= (1u32 << w) - 1 ==> a | b <= (1u32
        << w) - 1) by (bit_vector);
}

/// Removes the full rows of `rows`: returns the cleared board and the number
/// of rows removed.
pub fn compact(rows: &Vec<u32>, full: u32) -> (res: (Vec<u32>, usize))
    ensures
        res.0@ == cleared(rows@, full),
        res.1 == full_count(rows@, full),
{
    let n = rows.len();
    let mut kept: Vec<u32> = Vec::new();
    let mut i: usize = 0;
    while i < n
        invariant
            n == rows.len(),
            i <= n,
            kept@ == survivors(rows@.subrange(0, i as int), full),
            kept.len() + full_count(rows@.subrange(0, i as int), full) == i,
        decreases n - i,
    {
        let ghost prev = rows@.subrange(0, i as int);
        assert(rows@.subrange(0, i + 1).drop_last() == prev);
        if rows[i] != full {
            kept.push(rows[i]);
        }
        i += 1;
    }
    assert(rows@.subrange(0, n as int) == rows@);
    let removed = n - kept.len();
    let mut out: Vec<u32> = Vec::new();
    let mut j: usize = 0;
    while j < removed
        invariant
            j <= removed,
            out@ == empty_rows(j as int),
        decreases removed - j,
    {
        out.push(0);
        j += 1;
        assert(out@ =~= empty_rows(j as int));
    }
    let mut k: usize = 0;
    while k < kept.len()
        invariant
            k <= kept.len(),
            out@ == empty_rows(removed as int) + kept@.subrange(0, k as int),
        decreases kept.len() - k,
    {
        out.push(kept[k]);
        k += 1;
        assert(out@ =~= empty_rows(removed as int) + kept@.subrange(0, k as int));
    }
    assert(kept@.subrange(0, kept.len() as int) == kept@);
    (out, removed)
}

pub proof fn lemma_survivors_len(rows: Seq<u32>, full: u32)
    ensures
        survivors(rows, full).len() + full_count(rows, full) == rows.len(),
    decreases rows.len(),
{
    if rows.len() > 0 {
        lemma_survivors_len(rows.drop_last(), full);
    }
}

pub proof fn lemma_survivors_fit(rows: Seq<u32>, full: u32, width: u32)
    requires
        rows_fit(rows, width),
    ensures
        rows_fit(survivors(rows, full), width),
        survivors(rows, full).len() + full_count(rows, full) == rows.len(),
    decreases rows.len(),
{
    if rows.len() > 0 {
        let p = rows.drop_last();
        assert forall|i: int| 0 <= i < p.len() implies #[trigger] p[i] <= full_mask(width) by {
            assert(p[i] == rows[i]);
        }
        lemma_survivors_fit(p, full, width);
        assert(rows[rows.len() - 1] <= full_mask(width));
    }
}

/// A board of `height` rows, each a bitmask of `width` columns; row 0 is the
/// top.
pub struct Board {
    pub width: u32,
    pub height: u32,
    pub rows: Vec<u32>,
}

impl Board {
    /// Dimensions are in range, there are `height` rows, and no row has a
    /// bit set past the width.
    pub open spec fn wf(&self) -> bool {
        &&& 1 <= self.width <= MAX_WIDTH
        &&& 1 <= self.height <= MAX_HEIGHT
        &&& self.rows.len() == self.height
        &&& rows_fit(self.rows@, self.width)
    }

    /// An empty board of the given size.
    pub fn new(width: u32, height: u32) -> (b: Board)
        requires
            1 <= width <= MAX_WIDTH,
            1 <= height <= MAX_HEIGHT,
        ensures
            b.wf(),
            b.width == width,
            b.height == height,
            b.rows@ == empty_rows(height as int),
    {
        let mut rows: Vec<u32> = Vec::new();
        let mut i: u32 = 0;
        while i < height
            invariant
                i <= height,
                rows@ == empty_rows(i as int),
            decreases height - i,
        {
            rows.push(0);
            i += 1;
            assert(rows@ =~= empty_rows(i as int));
        }
        Board { width, height, rows }
    }

    /// The value of a completely filled row.
    pub fn full_row(&self) -> (r: u32)
        requires
            1 <= self.width <= MAX_WIDTH,
        ensures
            r == full_mask(self.width),
    {
        proof {
            lemma_mask_facts(self.width);
        }
        (1u32 << self.width) - 1
    }

    /// Whether `s` placed at `(x, y)` leaves the board or overlaps a filled
    /// cell. The bounds are tested before any cell.
    pub fn collided(&self, s: &Shape, x: i32, y: i32) -> (r: bool)
        requires
            self.wf(),
            s.wf(),
            y >= 0,
        ensures
            r == (out_of_bounds(self.width, self.height, *s, x as int, y as int) || overlaps(
                self.rows@,
                *s,
                x as int,
                y as int,
            )),
    {
        if x < 0 {
            return true;
        }
        if x as i64 > self.width as i64 - s.width as i64 {
            return true;
        }
        if y as i64 > self.height as i64 - s.height as i64 {
            return true;
        }
        let xs = x as u32;
        let yu = y as usize;
        let mut h: u32 = 0;
        while h < s.height
            invariant
                self.wf(),
                s.wf(),
                h <= s.height,
                0 <= x,
                xs == x,
                yu == y,
                x + s.width <= self.width,
                y + s.height <= self.height,
                forall|i: int|
                    0 <= i < h ==> (s.rows@[i] << xs) & #[trigger] self.rows@[y + i] == 0,
            decreases s.height - h,
        {
            if (s.row(h) << xs) & self.rows[yu + h as usize] != 0 {
                return true;
            }
            h += 1;
        }
        false
    }

    /// ORs `s`, shifted by `x`, into rows `y .. y + s.height`.
    pub fn commit(&mut self, s: &Shape, x: i32, y: i32)
        requires
            old(self).wf(),
            s.wf(),
            !out_of_bounds(old(self).width, old(self).height, *s, x as int, y as int),
            y >= 0,
        ensures
            final(self).wf(),
            final(self).width == old(self).width,
            final(self).height == old(self).height,
            final(self).rows@ == placed(old(self).rows@, *s, x as int, y as int),
    {
        let ghost start = self.rows@;
        let xs = x as u32;
        let yu = y as usize;
        let mut h: u32 = 0;
        while h < s.height
            invariant
                self.wf(),
                s.wf(),
                h <= s.height,
                0 <= x,
                xs == x,
                yu == y,
                self.width == old(self).width,
                self.height == old(self).height,
                start == old(self).rows@,
                x + s.width <= self.width,
                y + s.height <= self.height,
                forall|j: int|
                    0 <= j < self.rows.len() ==> #[trigger] self.rows@[j] == if y <= j < y + h {
                        start[j] | (s.rows@[j - y] << xs)
                    } else {
                        start[j]
                    },
            decreases s.height - h,
        {
            let idx = yu + h as usize;
            let add = s.row(h) << xs;
            proof {
                lemma_shift_fits(s.rows@[h as int], s.width, xs, self.width);
                lemma_or_fits(self.rows@[idx as int], add, self.width);
            }
            let v = self.rows[idx] | add;
            self.rows.set(idx, v);
            h += 1;
        }
        assert(self.rows@ =~= placed(start, *s, x as int, y as int));
    }

    /// Removes every full row, moving the rows above it down and adding an
    /// empty row on top; returns how many rows were removed.
    pub fn clear_full_rows(&mut self) -> (n: u32)
        requires
            old(self).wf(),
        ensures
            final(self).wf(),
            final(self).width == old(self).width,
            final(self).height == old(self).height,
            final(self).rows@ == cleared(old(self).rows@, full_mask(old(self).width)),
            n == full_count(old(self).rows@, full_mask(old(self).width)),
    {
        let full = self.full_row();
        let (rows, n) = compact(&self.rows, full);
        proof {
            lemma_survivors_fit(self.rows@, full, self.width);
            assert forall|i: int| 0 <= i < rows@.len() implies #[trigger] rows@[i] <= full_mask(
                self.width,
            ) by {
                let z = full_count(self.rows@, full) as int;
                if i >= z {
                    assert(rows@[i] == survivors(self.rows@, full)[i - z]);
                }
            }
        }
        self.rows = rows;
        n as u32
    }
}

/// A board without a full row is left as it is by clearing.
pub proof fn lemma_clear_no_full(rows: Seq<u32>, full: u32)
    requires
        forall|i: int| 0 <= i < rows.len() ==> #[trigger] rows[i] != full,
    ensures
        full_count(rows, full) == 0,
        cleared(rows, full) == rows,
    decreases rows.len(),
{
    if rows.len() > 0 {
        let p = rows.drop_last();
        assert forall|i: int| 0 <= i < p.len() implies #[trigger] p[i] != full by {
            assert(p[i] == rows[i]);
        }
        lemma_clear_no_full(p, full);
        assert(rows[rows.len() - 1] != full);
        assert(p.push(rows.last()) == rows);
    }
    assert(empty_rows(0) + survivors(rows, full) =~= survivors(rows, full));
}

/// Clearing a board whose rows are all empty removes nothing and leaves it
/// as it was.
pub proof fn lemma_clear_empty(rows: Seq<u32>, width: u32)
    requires
        1 <= width <= MAX_WIDTH,
        forall|i: int| 0 <= i < rows.len() ==> #[trigger] rows[i] == 0,
    ensures
        full_count(rows, full_mask(width)) == 0,
        cleared(rows, full_mask(width)) == rows,
    decreases rows.len(),
{
    lemma_mask_facts(width);
    if rows.len() > 0 {
        let p = rows.drop_last();
        assert forall|i: int| 0 <= i < p.len() implies #[trigger] p[i] == 0 by {
            assert(p[i] == rows[i]);
        }
        lemma_clear_empty(p, width);
        assert(rows.last() == 0);
        assert(p.push(rows.last()) == rows);
    }
    assert(empty_rows(0) + survivors(rows, full_mask(width)) =~= survivors(rows, full_mask(width)));
}

} // verus!
