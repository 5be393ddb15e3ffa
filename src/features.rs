use vstd::prelude::*;
use crate::board::{cleared, compact, full_count, full_mask, MAX_HEIGHT, MAX_WIDTH};
use crate::shapes::{rotations_spec, shape, shape_spec, NUM_KINDS};

verus! {

/// The design height the landing-height feature is measured against,
/// whatever the configured board height.
pub const DESIGN_HEIGHT: i64 = 20;

/// The six features a placement is scored on, in their fixed order. The
/// landing height is a multiple of one half and is kept doubled.
#[derive(Clone, Copy, Debug, PartialEq, Eq)]
pub struct Features {
    pub landing_height_x2: i64,
    pub cleared: u64,
    pub row_transitions: u64,
    pub column_transitions: u64,
    pub holes: u64,
    pub well_sum: u64,
}

/// Cell `x` of row `r`: 1 when filled, 0 when empty.
pub open spec fn cell(r: u32, x: int) -> u32 {
    (r >> (x as u32)) & 1u32
}

/// Changes of cell value along the first `n` cells of `r`, with a filled
/// cell assumed left of column 0.
pub open spec fn row_trans_prefix(r: u32, n: int) -> int
    decreases n,
{
    if n <= 0 {
        0
    } else {
        let prev = if n == 1 { 1u32 } else { cell(r, n - 2) };
        row_trans_prefix(r, n - 1) + if prev != cell(r, n - 1) { 1int } else { 0 }
    }
}

/// Row transitions of one row: the changes along it, plus one when its
/// rightmost cell is empty.
pub open spec fn row_trans(r: u32, width: u32) -> int {
    row_trans_prefix(r, width as int) + if cell(r, width - 1) == 0 { 1int } else { 0 }
}

/// Row transitions summed over the first `n` rows.
pub open spec fn rows_trans(g: Seq<u32>, width: u32, n: int) -> int
    decreases n,
{
    if n <= 0 {
        0
    } else {
        rows_trans(g, width, n - 1) + row_trans(g[n - 1], width)
    }
}

/// Changes of value down the first `n` cells of column `x`, with an empty
/// cell assumed above row 0.
pub open spec fn col_trans_prefix(g: Seq<u32>, x: int, n: int) -> int
    decreases n,
{
    if n <= 0 {
        0
    } else {
        let prev = if n == 1 { 0u32 } else { cell(g[n - 2], x) };
        col_trans_prefix(g, x, n - 1) + if prev != cell(g[n - 1], x) { 1int } else { 0 }
    }
}

/// Column transitions of column `x`: the changes down it, plus one when its
/// bottom cell is empty.
pub open spec fn col_trans(g: Seq<u32>, x: int) -> int {
    col_trans_prefix(g, x, g.len() as int) + if g.len() == 0 || cell(g[g.len() - 1], x) == 0 {
        1int
    } else {
        0
    }
}

/// Filled cells among the first `n` cells of column `x`.
pub open spec fn col_count(g: Seq<u32>, x: int, n: int) -> int
    decreases n,
{
    if n <= 0 {
        0
    } else {
        col_count(g, x, n - 1) + cell(g[n - 1], x) as int
    }
}

/// Row of the topmost filled cell among the first `n` cells of column `x`,
/// or -1 when they are all empty.
pub open spec fn col_top(g: Seq<u32>, x: int, n: int) -> int
    decreases n,
{
    if n <= 0 {
        -1
    } else if col_top(g, x, n - 1) >= 0 {
        col_top(g, x, n - 1)
    } else if cell(g[n - 1], x) == 1 {
        n - 1
    } else {
        -1
    }
}

/// Holes of column `x`: the empty cells from its topmost filled cell down
/// to the bottom; none in an empty column.
pub open spec fn col_holes(g: Seq<u32>, x: int) -> int {
    let n = g.len() as int;
    if col_count(g, x, n) > 0 {
        n - col_top(g, x, n) - col_count(g, x, n)
    } else {
        0
    }
}

/// Cell `x` of row `r` is empty while its neighbours (the single one at an
/// edge column) are filled.
pub open spec fn is_well_spec(r: u32, width: u32, x: int) -> bool {
    cell(r, x) == 0 && if x == 0 {
        cell(r, 1) == 1
    } else if x == width - 1 {
        cell(r, x - 1) == 1
    } else {
        cell(r, x - 1) == 1 && cell(r, x + 1) == 1
    }
}

/// Length of the run of well cells in column `x` that ends at row `n - 1`.
pub open spec fn well_depth(g: Seq<u32>, width: u32, x: int, n: int) -> int
    decreases n,
{
    if n <= 0 {
        0
    } else if is_well_spec(g[n - 1], width, x) {
        well_depth(g, width, x, n - 1) + 1
    } else {
        0
    }
}

/// The well sum of the first `n` rows of column `x`: each well cell counts
/// its depth within its run, so a run of length `k` adds `k(k+1)/2`.
pub open spec fn col_wells(g: Seq<u32>, width: u32, x: int, n: int) -> int
    decreases n,
{
    if n <= 0 {
        0
    } else {
        col_wells(g, width, x, n - 1) + well_depth(g, width, x, n)
    }
}

/// Column transitions summed over the first `n` columns.
pub open spec fn cols_trans(g: Seq<u32>, n: int) -> int
    decreases n,
{
    if n <= 0 {
        0
    } else {
        cols_trans(g, n - 1) + col_trans(g, n - 1)
    }
}

/// Holes summed over the first `n` columns.
pub open spec fn hole_count(g: Seq<u32>, n: int) -> int
    decreases n,
{
    if n <= 0 {
        0
    } else {
        hole_count(g, n - 1) + col_holes(g, n - 1)
    }
}

/// Well sums added over the first `n` columns.
pub open spec fn well_sum(g: Seq<u32>, width: u32, n: int) -> int
    decreases n,
{
    if n <= 0 {
        0
    } else {
        well_sum(g, width, n - 1) + col_wells(g, width, n - 1, g.len() as int)
    }
}

/// Twice the landing height of a piece of height `h` resting at row `y`:
/// `2 * (20 - (y + h)) + (h - 1)`.
pub open spec fn landing_x2(y: int, h: int) -> int {
    2 * (DESIGN_HEIGHT - (y + h)) + (h - 1)
}

/// The features of a candidate board `rows` on which piece `kind` in
/// rotation `rot` came to rest at row `y`. All but the landing height are
/// read from the board after its full rows are cleared.
pub open spec fn eval_spec(width: u32, rows: Seq<u32>, kind: int, y: int, rot: int) -> Features {
    let g = cleared(rows, full_mask(width));
    Features {
        landing_height_x2: landing_x2(y, shape_spec(kind, rot).height as int) as i64,
        cleared: full_count(rows, full_mask(width)) as u64,
        row_transitions: rows_trans(g, width, g.len() as int) as u64,
        column_transitions: cols_trans(g, width as int) as u64,
        holes: hole_count(g, width as int) as u64,
        well_sum: well_sum(g, width, width as int) as u64,
    }
}

pub proof fn lemma_cell_bit(r: u32, x: int)
    ensures
        cell(r, x) == 0 || cell(r, x) == 1,
{
    let s = x as u32;
    assert((r >> s) & 1u32 == 0 || (r >> s) & 1u32 == 1) by (bit_vector);
}

fn is_well(r: u32, width: u32, x: u32) -> (b: bool)
    requires
        1 <= width <= MAX_WIDTH,
        x < width,
    ensures
        b == is_well_spec(r, width, x as int),
{
    let c = (r >> x) & 1;
    if x == 0 {
        c == 0 && (r >> 1u32) & 1 == 1
    } else if x == width - 1 {
        c == 0 && (r >> (x - 1)) & 1 == 1
    } else {
        c == 0 && (r >> (x - 1)) & 1 == 1 && (r >> (x + 1)) & 1 == 1
    }
}

fn row_transitions(r: u32, width: u32) -> (t: u64)
    requires
        1 <= width <= MAX_WIDTH,
    ensures
        t == row_trans(r, width),
        t <= 32,
{
    let mut last: u32 = 1;
    let mut t: u64 = 0;
    let mut x: u32 = 0;
    while x < width
        invariant
            1 <= width <= MAX_WIDTH,
            x <= width,
            t == row_trans_prefix(r, x as int),
            t <= x,
            last == if x == 0 { 1u32 } else { cell(r, x - 1) },
        decreases width - x,
    {
        let c = (r >> x) & 1;
        if last != c {
            t += 1;
        }
        last = c;
        x += 1;
    }
    if last == 0 {
        t += 1;
    }
    t
}

/// Column transitions, holes and well sum of column `x`.
fn column_features(g: &Vec<u32>, width: u32, x: u32) -> (res: (u64, u64, u64))
    requires
        1 <= width <= MAX_WIDTH,
        x < width,
        g.len() <= MAX_HEIGHT,
    ensures
        res.0 == col_trans(g@, x as int),
        res.1 == col_holes(g@, x as int),
        res.2 == col_wells(g@, width, x as int, g.len() as int),
        res.0 <= MAX_HEIGHT + 1,
        res.1 <= MAX_HEIGHT,
        res.2 <= MAX_HEIGHT * MAX_HEIGHT,
{
    let n = g.len();
    let mut last: u32 = 0;
    let mut trans: u64 = 0;
    let mut count: u64 = 0;
    let mut top: i64 = -1;
    let mut depth: u64 = 0;
    let mut wells: u64 = 0;
    let mut y: usize = 0;
    while y < n
        invariant
            1 <= width <= MAX_WIDTH,
            x < width,
            n == g.len(),
            n <= MAX_HEIGHT,
            y <= n,
            last == if y == 0 { 0u32 } else { cell(g@[y - 1], x as int) },
            trans == col_trans_prefix(g@, x as int, y as int),
            trans <= y,
            count == col_count(g@, x as int, y as int),
            top == col_top(g@, x as int, y as int),
            top < 0 ==> count == 0,
            top >= 0 ==> top < y && count <= y - top,
            depth == well_depth(g@, width, x as int, y as int),
            depth <= y,
            wells == col_wells(g@, width, x as int, y as int),
            wells <= y * MAX_HEIGHT,
        decreases n - y,
    {
        let r = g[y];
        let c = (r >> x) & 1;
        if last != c {
            trans += 1;
        }
        last = c;
        if is_well(r, width, x) {
            depth += 1;
        } else {
            depth = 0;
        }
        wells += depth;
        if c == 1 {
            count += 1;
            if top < 0 {
                top = y as i64;
            }
        } else {
            proof {
                lemma_cell_bit(r, x as int);
            }
        }
        y += 1;
    }
    if last == 0 {
        trans += 1;
    }
    let holes: u64 = if count > 0 {
        n as u64 - top as u64 - count
    } else {
        0
    };
    (trans, holes, wells)
}

/// The features of a candidate board `rows` on which piece `kind` in
/// rotation `rot` came to rest at row `landing_row`. The board is cleared of
/// its full rows on a copy first; `rows` is left as it is.
pub fn evaluate(width: u32, rows: &Vec<u32>, kind: usize, landing_row: i32, rot: usize) -> (f:
    Features)
    requires
        1 <= width <= MAX_WIDTH,
        1 <= rows.len() <= MAX_HEIGHT,
        kind < NUM_KINDS,
        rot < rotations_spec(kind as int),
        0 <= landing_row <= MAX_HEIGHT,
    ensures
        f == eval_spec(width, rows@, kind as int, landing_row as int, rot as int),
{
    let s = shape(kind, rot);
    proof {
        crate::board::lemma_mask_facts(width);
    }
    let full: u32 = (1u32 << width) - 1;
    let (g, melted) = compact(rows, full);
    proof {
        crate::board::lemma_survivors_len(rows@, full);
    }
    let n = g.len();
    let mut row_t: u64 = 0;
    let mut y: usize = 0;
    while y < n
        invariant
            1 <= width <= MAX_WIDTH,
            n == g.len(),
            n <= MAX_HEIGHT,
            y <= n,
            row_t == rows_trans(g@, width, y as int),
            row_t <= y * 32,
        decreases n - y,
    {
        let t = row_transitions(g[y], width);
        row_t += t;
        y += 1;
    }
    let mut col_t: u64 = 0;
    let mut holes: u64 = 0;
    let mut wells: u64 = 0;
    let mut x: u32 = 0;
    while x < width
        invariant
            1 <= width <= MAX_WIDTH,
            n == g.len(),
            n <= MAX_HEIGHT,
            x <= width,
            col_t == cols_trans(g@, x as int),
            col_t <= x * 1048577,
            holes == hole_count(g@, x as int),
            holes <= x * MAX_HEIGHT,
            wells == well_sum(g@, width, x as int),
            wells <= x * 1099511627776,
        decreases width - x,
    {
        let (ct, h, w) = column_features(&g, width, x);
        col_t += ct;
        holes += h;
        wells += w;
        x += 1;
    }
    let landing = 2 * (DESIGN_HEIGHT - (landing_row as i64 + s.height as i64)) + (s.height as i64
        - 1);
    Features {
        landing_height_x2: landing,
        cleared: melted as u64,
        row_transitions: row_t,
        column_transitions: col_t,
        holes,
        well_sum: wells,
    }
}


proof fn lemma_set_bit(r: u32, x: int, x2: int)
    requires
        0 <= x < 32,
        0 <= x2 < 32,
    ensures
        cell(r | (1u32 << (x as u32)), x) == 1,
        x2 != x ==> cell(r | (1u32 << (x as u32)), x2) == cell(r, x2),
{
    let s = x as u32;
    let t = x2 as u32;
    assert(s < 32 ==> ((r | (1u32 << s)) >> s) & 1u32 == 1u32) by (bit_vector);
    assert(s < 32 && t < 32 && s != t ==> ((r | (1u32 << s)) >> t) & 1u32 == (r >> t) & 1u32)
        by (bit_vector);
}

/// Column `x2` reads the same in `g` and `h` over the first `n` rows.
pub open spec fn same_column(g: Seq<u32>, h: Seq<u32>, x2: int, n: int) -> bool {
    forall|y: int| 0 <= y < n ==> cell(#[trigger] g[y], x2) == cell(h[y], x2)
}

proof fn lemma_same_column_holes(g: Seq<u32>, h: Seq<u32>, x2: int, n: int)
    requires
        0 <= n <= g.len(),
        g.len() == h.len(),
        same_column(g, h, x2, n),
    ensures
        col_count(g, x2, n) == col_count(h, x2, n),
        col_top(g, x2, n) == col_top(h, x2, n),
    decreases n,
{
    if n > 0 {
        lemma_same_column_holes(g, h, x2, n - 1);
        assert(cell(g[n - 1], x2) == cell(h[n - 1], x2));
    }
}

proof fn lemma_top_empty_prefix(g: Seq<u32>, x: int, n: int)
    requires
        0 <= n <= g.len(),
    ensures
        col_top(g, x, n) < 0 ==> forall|y: int| 0 <= y < n ==> cell(#[trigger] g[y], x) != 1,
        col_top(g, x, n) >= 0 ==> col_top(g, x, n) < n && cell(g[col_top(g, x, n)], x) == 1
            && forall|y: int| 0 <= y < col_top(g, x, n) ==> cell(#[trigger] g[y], x) != 1,
        col_count(g, x, n) >= 0,
        col_count(g, x, n) > 0 ==> col_top(g, x, n) >= 0,
        col_top(g, x, n) < 0 ==> col_count(g, x, n) == 0,
        col_top(g, x, n) >= 0 ==> col_count(g, x, n) <= n - col_top(g, x, n),
    decreases n,
{
    if n > 0 {
        lemma_top_empty_prefix(g, x, n - 1);
        lemma_cell_bit(g[n - 1], x);
    }
}

proof fn lemma_column_gains_cell(g: Seq<u32>, h: Seq<u32>, x: int, y0: int, n: int)
    requires
        0 <= n <= g.len(),
        g.len() == h.len(),
        0 <= y0 < g.len(),
        forall|y: int| 0 <= y < g.len() && y != y0 ==> cell(#[trigger] h[y], x) == cell(g[y], x),
        cell(h[y0], x) == 1,
        forall|y: int| 0 <= y <= y0 ==> cell(#[trigger] g[y], x) != 1,
    ensures
        col_count(h, x, n) == col_count(g, x, n) + if n > y0 { 1int } else { 0 },
        col_top(h, x, n) == if n > y0 { y0 } else { -1 },
    decreases n,
{
    if n > 0 {
        lemma_column_gains_cell(g, h, x, y0, n - 1);
        lemma_cell_bit(g[n - 1], x);
    }
}

proof fn lemma_hole_count_split(g: Seq<u32>, h: Seq<u32>, x: int, n: int)
    requires
        0 <= n,
        forall|x2: int| 0 <= x2 < n && x2 != x ==> #[trigger] col_holes(h, x2) == col_holes(g, x2),
        0 <= x < n ==> col_holes(h, x) >= col_holes(g, x),
    ensures
        hole_count(h, n) >= hole_count(g, n),
    decreases n,
{
    if n > 0 {
        lemma_hole_count_split(g, h, x, n - 1);
    }
}

/// Filling an empty cell above the topmost filled cell of a column that
/// has a hole never lowers the hole count: the new cell becomes the top of
/// the column and every empty cell below it counts.
pub proof fn lemma_holes_monotone(g: Seq<u32>, width: u32, x: int, y0: int)
    requires
        1 <= width <= MAX_WIDTH,
        0 <= x < width,
        0 <= y0 < g.len(),
        col_holes(g, x) > 0,
        y0 < col_top(g, x, g.len() as int),
    ensures
        hole_count(g.update(y0, g[y0] | (1u32 << (x as u32))), width as int) >= hole_count(
            g,
            width as int,
        ),
{
    let h = g.update(y0, g[y0] | (1u32 << (x as u32)));
    let n = g.len() as int;
    lemma_top_empty_prefix(g, x, n);
    assert forall|y: int| 0 <= y < n && y != y0 implies cell(#[trigger] h[y], x) == cell(g[y], x) by {
        assert(h[y] == g[y]);
    }
    lemma_set_bit(g[y0], x, x);
    lemma_column_gains_cell(g, h, x, y0, n);
    assert forall|x2: int| 0 <= x2 < width && x2 != x implies #[trigger] col_holes(h, x2)
        == col_holes(g, x2) by {
        assert forall|y: int| 0 <= y < n implies cell(#[trigger] h[y], x2) == cell(g[y], x2) by {
            if y == y0 {
                lemma_set_bit(g[y0], x, x2);
            }
        }
        lemma_same_column_holes(h, g, x2, n);
    }
    lemma_hole_count_split(g, h, x, width as int);
}

proof fn lemma_hole_count_bound(g: Seq<u32>, n: int)
    requires
        0 <= n,
    ensures
        0 <= hole_count(g, n) <= n * g.len(),
    decreases n,
{
    if n > 0 {
        lemma_hole_count_bound(g, n - 1);
        lemma_top_empty_prefix(g, n - 1, g.len() as int);
        assert(n * g.len() == (n - 1) * g.len() + g.len()) by (nonlinear_arith);
    }
}

/// The same law on the hole count that `evaluate` reports, for boards with
/// no full row before and after the cell is filled (a full row would be
/// cleared first and shift the rows above it).
pub proof fn lemma_evaluate_holes_monotone(
    rows: Seq<u32>,
    width: u32,
    x: int,
    y0: int,
    kind: int,
    y: int,
    rot: int,
)
    requires
        1 <= width <= MAX_WIDTH,
        rows.len() <= MAX_HEIGHT,
        0 <= x < width,
        0 <= y0 < rows.len(),
        col_holes(rows, x) > 0,
        y0 < col_top(rows, x, rows.len() as int),
        forall|i: int| 0 <= i < rows.len() ==> #[trigger] rows[i] != full_mask(width),
        rows[y0] | (1u32 << (x as u32)) != full_mask(width),
    ensures
        eval_spec(width, rows.update(y0, rows[y0] | (1u32 << (x as u32))), kind, y, rot).holes
            >= eval_spec(width, rows, kind, y, rot).holes,
{
    let h = rows.update(y0, rows[y0] | (1u32 << (x as u32)));
    crate::board::lemma_clear_no_full(rows, full_mask(width));
    crate::board::lemma_clear_no_full(h, full_mask(width));
    lemma_holes_monotone(rows, width, x, y0);
    lemma_hole_count_bound(rows, width as int);
    lemma_hole_count_bound(h, width as int);
    assert(width * rows.len() <= 31 * MAX_HEIGHT) by (nonlinear_arith)
        requires
            width <= 31,
            rows.len() <= MAX_HEIGHT,
    ;
}

} // verus!
