use vstd::prelude::*;
use crate::board::{
    cleared, full_mask, out_of_bounds, overlaps, placed, Board, MAX_HEIGHT, MAX_WIDTH,
};
use crate::board::full_count;
use crate::features::{
    cols_trans, eval_spec, evaluate, hole_count, rows_trans, well_sum, Features,
};
use crate::provider::{dealt, Provider};
use crate::shapes::{num_rotations, rotations_spec, shape, shape_spec, Shape, NUM_KINDS};

verus! {

/// Smallest width and height of a game board: every piece fits in some
/// rotation, and a piece spawned at the top stays inside the board.
pub const MIN_SIZE: u32 = 4;

/// Where a piece comes to rest: its rotation and the column and row of its
/// top-left corner.
#[derive(Clone, Copy, Debug, PartialEq, Eq)]
pub struct Placement {
    pub rotation: usize,
    pub x: i32,
    pub y: i32,
}

/// A resting placement of the current piece together with the features of
/// the board it would leave.
#[derive(Clone, Copy, Debug, PartialEq, Eq)]
pub struct Candidate {
    pub placement: Placement,
    pub features: Features,
}

/// Whether `s` at `(x, y)` leaves the board or overlaps a filled cell.
pub open spec fn collides(b: Board, s: Shape, x: int, y: int) -> bool {
    out_of_bounds(b.width, b.height, s, x, y) || overlaps(b.rows@, s, x, y)
}

/// Row `y` is where `s` dropped from row 0 in column `x` stops: every row
/// from 1 to `y` is free and row `y + 1` is not.
pub open spec fn rests(b: Board, s: Shape, x: int, y: int) -> bool {
    &&& y >= 0
    &&& forall|j: int| 1 <= j <= y ==> !#[trigger] collides(b, s, x, j)
    &&& collides(b, s, x, y + 1)
}

/// The columns that rotation `rot` of `kind` can take on a board of `width`
/// columns.
pub open spec fn offset_count(width: u32, kind: int, rot: int) -> int {
    width - shape_spec(kind, rot).width + 1
}

/// The `(rotation, column)` pairs searched, rotation-major, for the first
/// `n` rotations of `kind`.
pub open spec fn slots(width: u32, kind: int, n: int) -> Seq<(int, int)>
    decreases n,
{
    if n <= 0 {
        Seq::empty()
    } else {
        slots(width, kind, n - 1) + Seq::new(
            offset_count(width, kind, n - 1) as nat,
            |x: int| (n - 1, x),
        )
    }
}

/// The board `b` with piece `kind` committed at `p`.
pub open spec fn committed(b: Board, kind: int, p: Placement) -> Seq<u32> {
    placed(b.rows@, shape_spec(kind, p.rotation as int), p.x as int, p.y as int)
}

/// `c` is the candidate of `kind` on `b` for rotation `rot` and column `x`:
/// the piece rests at its row and its features are those of the board it
/// leaves.
pub open spec fn is_candidate(b: Board, kind: int, c: Candidate, rot: int, x: int) -> bool {
    let s = shape_spec(kind, rot);
    &&& c.placement.rotation == rot
    &&& c.placement.x == x
    &&& rests(b, s, x, c.placement.y as int)
    &&& !out_of_bounds(b.width, b.height, s, x, c.placement.y as int)
    &&& c.features == eval_spec(
        b.width,
        committed(b, kind, c.placement),
        kind,
        c.placement.y as int,
        rot,
    )
}

/// The state of one game.
pub struct Game {
    pub board: Board,
    pub alive: bool,
    /// Pieces spawned so far.
    pub count: u64,
    pub current: usize,
    pub next: usize,
    pub rotation: usize,
    pub x: i32,
    pub y: i32,
    pub provider: Provider,
}

impl Game {
    pub open spec fn wf(&self) -> bool {
        &&& self.board.wf()
        &&& self.board.width >= MIN_SIZE
        &&& self.board.height >= MIN_SIZE
        &&& self.provider.wf()
        &&& self.current < NUM_KINDS
        &&& self.next < NUM_KINDS
        &&& self.rotation < rotations_spec(self.current as int)
    }

    /// A game on an empty board: one kind is drawn as the next piece, then
    /// it is spawned and a second one drawn behind it.
    pub fn new(width: u32, height: u32, provider: Provider) -> (g: Game)
        requires
            MIN_SIZE <= width <= MAX_WIDTH,
            MIN_SIZE <= height <= MAX_HEIGHT,
            provider.wf(),
        ensures
            g.wf(),
            g.alive,
            g.count == 1,
            g.board.width == width,
            g.board.height == height,
            g.board.rows@ == crate::board::empty_rows(height as int),
            g.rotation == 0,
            g.y == 0,
            g.x == width / 2 - 1,
            exists|mid: Provider| dealt(provider, mid, g.current) && dealt(mid, g.provider, g.next),
    {
        let ghost start = provider;
        let mut provider = provider;
        let next = provider.next();
        let ghost mid = provider;
        let mut g = Game {
            board: Board::new(width, height),
            alive: true,
            count: 0,
            current: 0,
            next,
            rotation: 0,
            x: 0,
            y: 0,
            provider,
        };
        g.spawn_next();
        assert(dealt(start, mid, g.current) && dealt(mid, g.provider, g.next));
        g
    }

    /// Counts a new piece, makes the next kind current and draws a new next
    /// one; the piece starts in rotation 0 at column `width / 2 - 1`, row 0.
    pub fn spawn_next(&mut self)
        requires
            old(self).wf(),
            old(self).count < u64::MAX,
        ensures
            final(self).wf(),
            final(self).board == old(self).board,
            final(self).alive == old(self).alive,
            final(self).count == old(self).count + 1,
            final(self).current == old(self).next,
            dealt(old(self).provider, final(self).provider, final(self).next),
            final(self).rotation == 0,
            final(self).x == old(self).board.width / 2 - 1,
            final(self).y == 0,
    {
        self.count += 1;
        self.current = self.next;
        self.rotation = 0;
        self.next = self.provider.next();
        self.x = (self.board.width / 2) as i32 - 1;
        self.y = 0;
    }

    /// Whether rotation `rot` of the current piece at `(x, y)` leaves the
    /// board or overlaps a filled cell.
    pub fn collided(&self, x: i32, y: i32, rot: usize) -> (r: bool)
        requires
            self.wf(),
            rot < rotations_spec(self.current as int),
            y >= 0,
        ensures
            r == collides(self.board, shape_spec(self.current as int, rot as int), x as int, y as int),
    {
        let s = shape(self.current, rot);
        self.board.collided(&s, x, y)
    }

    /// The row where rotation `rot` of the current piece, dropped from row 0
    /// in column `x`, stops.
    fn drop_row(&self, x: i32, rot: usize) -> (y: i32)
        requires
            self.wf(),
            rot < rotations_spec(self.current as int),
            0 <= x <= self.board.width - shape_spec(self.current as int, rot as int).width,
        ensures
            rests(self.board, shape_spec(self.current as int, rot as int), x as int, y as int),
            !out_of_bounds(
                self.board.width,
                self.board.height,
                shape_spec(self.current as int, rot as int),
                x as int,
                y as int,
            ),
    {
        let ghost s = shape_spec(self.current as int, rot as int);
        let mut y: i32 = 0;
        while !self.collided(x, y + 1, rot)
            invariant
                self.wf(),
                rot < rotations_spec(self.current as int),
                s == shape_spec(self.current as int, rot as int),
                0 <= x <= self.board.width - s.width,
                0 <= y <= self.board.height - s.height,
                forall|j: int| 1 <= j <= y ==> !#[trigger] collides(self.board, s, x as int, j),
            decreases self.board.height - y,
        {
            y += 1;
        }
        y
    }

    /// Every resting placement of the current piece, rotation-major then
    /// column-minor, each with the features of the board it would leave.
    /// Choosing among them is left to the caller's scoring.
    pub fn candidates(&self) -> (cs: Vec<Candidate>)
        requires
            self.wf(),
        ensures
            cs@.len() == slots(self.board.width, self.current as int, rotations_spec(
                self.current as int,
            )).len(),
            forall|i: int|
                0 <= i < cs@.len() ==> {
                    let slot = #[trigger] slots(
                        self.board.width,
                        self.current as int,
                        rotations_spec(self.current as int),
                    )[i];
                    is_candidate(self.board, self.current as int, cs@[i], slot.0, slot.1)
                },
    {
        let kind = self.current;
        let width = self.board.width;
        let rots = num_rotations(kind);
        let mut cs: Vec<Candidate> = Vec::new();
        let mut rot: usize = 0;
        while rot < rots
            invariant
                self.wf(),
                kind == self.current,
                width == self.board.width,
                rots == rotations_spec(kind as int),
                rot <= rots,
                cs@.len() == slots(width, kind as int, rot as int).len(),
                forall|i: int|
                    0 <= i < cs@.len() ==> {
                        let slot = #[trigger] slots(width, kind as int, rot as int)[i];
                        is_candidate(self.board, kind as int, cs@[i], slot.0, slot.1)
                    },
            decreases rots - rot,
        {
            let s = shape(kind, rot);
            let ghost done = slots(width, kind as int, rot as int);
            let ghost upto = slots(width, kind as int, rot + 1);
            assert(upto == done + Seq::new(
                offset_count(width, kind as int, rot as int) as nat,
                |x: int| (rot as int, x),
            ));
            let last = (width - s.width) as i32;
            let mut x: i32 = 0;
            while x <= last
                invariant
                    self.wf(),
                    kind == self.current,
                    width == self.board.width,
                    rot < rots,
                    rots == rotations_spec(kind as int),
                    s == shape_spec(kind as int, rot as int),
                    s.wf(),
                    last == width - s.width,
                    0 <= x <= last + 1,
                    done == slots(width, kind as int, rot as int),
                    upto == done + Seq::new(
                        offset_count(width, kind as int, rot as int) as nat,
                        |x: int| (rot as int, x),
                    ),
                    cs@.len() == done.len() + x,
                    forall|i: int|
                        0 <= i < cs@.len() ==> {
                            let slot = #[trigger] upto[i];
                            is_candidate(self.board, kind as int, cs@[i], slot.0, slot.1)
                        },
                decreases last + 1 - x,
            {
                let y = self.drop_row(x, rot);
                let mut scratch = Board { width, height: self.board.height, rows: self.board.clone_rows() };
                scratch.commit(&s, x, y);
                let p = Placement { rotation: rot, x, y };
                let f = evaluate(width, &scratch.rows, kind, y, rot);
                let c = Candidate { placement: p, features: f };
                proof {
                    assert(scratch.rows@ == committed(self.board, kind as int, p));
                }
                cs.push(c);
                x += 1;
            }
            rot += 1;
        }
        cs
    }

    /// Commits rotation `p.rotation` of the current piece at `(p.x, p.y)`,
    /// ends the game if the top row is then occupied, clears full rows, and
    /// spawns the next piece if the game goes on. Returns the rows cleared.
    pub fn place(&mut self, p: Placement) -> (lines: u32)
        requires
            old(self).wf(),
            old(self).count < u64::MAX,
            p.rotation < rotations_spec(old(self).current as int),
            p.y >= 0,
            !out_of_bounds(
                old(self).board.width,
                old(self).board.height,
                shape_spec(old(self).current as int, p.rotation as int),
                p.x as int,
                p.y as int,
            ),
        ensures
            final(self).wf(),
            final(self).board.width == old(self).board.width,
            final(self).board.height == old(self).board.height,
            final(self).board.rows@ == cleared(
                committed(old(self).board, old(self).current as int, p),
                full_mask(old(self).board.width),
            ),
            lines == crate::board::full_count(
                committed(old(self).board, old(self).current as int, p),
                full_mask(old(self).board.width),
            ),
            final(self).alive == (old(self).alive && committed(
                old(self).board,
                old(self).current as int,
                p,
            )[0] == 0),
            final(self).alive ==> final(self).count == old(self).count + 1 && final(self).current
                == old(self).next && dealt(old(self).provider, final(self).provider, final(self).next),
            !final(self).alive ==> final(self).count == old(self).count && final(self).current
                == old(self).current && final(self).provider == old(self).provider,
    {
        self.x = p.x;
        self.y = p.y;
        self.rotation = p.rotation;
        let s = shape(self.current, p.rotation);
        self.board.commit(&s, p.x, p.y);
        if self.board.rows[0] > 0 {
            self.alive = false;
        }
        let lines = self.board.clear_full_rows();
        if self.alive {
            self.spawn_next();
        }
        lines
    }
}

impl Board {
    /// A copy of the rows.
    pub fn clone_rows(&self) -> (r: Vec<u32>)
        ensures
            r@ == self.rows@,
    {
        let mut r: Vec<u32> = Vec::new();
        let mut i: usize = 0;
        while i < self.rows.len()
            invariant
                i <= self.rows.len(),
                r@ == self.rows@.subrange(0, i as int),
            decreases self.rows.len() - i,
        {
            r.push(self.rows[i]);
            i += 1;
        }
        r
    }
}

/// What a candidate reports is what placing it does: its features are
/// those of the board that `place` commits before clearing, so evaluating
/// that board again gives the candidate's score; its cleared count is the
/// number of lines `place` returns, and its other board features are read
/// from the board `place` leaves.
pub proof fn lemma_candidate_round_trip(g: Game, c: Candidate, rot: int, x: int)
    requires
        is_candidate(g.board, g.current as int, c, rot, x),
    ensures
        c.features == eval_spec(
            g.board.width,
            committed(g.board, g.current as int, c.placement),
            g.current as int,
            c.placement.y as int,
            c.placement.rotation as int,
        ),
        c.features.cleared == full_count(
            committed(g.board, g.current as int, c.placement),
            full_mask(g.board.width),
        ) as u64,
        ({
            let after = cleared(
                committed(g.board, g.current as int, c.placement),
                full_mask(g.board.width),
            );
            &&& c.features.row_transitions == rows_trans(
                after,
                g.board.width,
                after.len() as int,
            ) as u64
            &&& c.features.column_transitions == cols_trans(after, g.board.width as int) as u64
            &&& c.features.holes == hole_count(after, g.board.width as int) as u64
            &&& c.features.well_sum == well_sum(after, g.board.width, g.board.width as int) as u64
        }),
{
}

} // verus!
