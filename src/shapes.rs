use vstd::prelude::*;

verus! {

/// Number of piece kinds (I, T, O, L, J, Z, S).
pub const NUM_KINDS: usize = 7;

/// One rotation of a piece: up to four row bitmasks (bit `i` is column `i`),
/// the bounding width and height.
#[derive(Clone, Copy, Debug, PartialEq, Eq)]
pub struct Shape {
    pub width: u32,
    pub height: u32,
    pub rows: [u32; 4],
}

impl Shape {
    /// The mask of row `i`; rows past the height are empty.
    pub fn row(&self, i: u32) -> (r: u32)
        requires
            i < 4,
        ensures
            r == self.rows@[i as int],
    {
        self.rows[i as usize]
    }

    /// Every row below the height uses only the `width` low bits, is not
    /// empty, and the rows past the height are empty.
    pub open spec fn wf(&self) -> bool {
        &&& 1 <= self.width <= 4
        &&& 1 <= self.height <= 4
        &&& forall|i: int|
            0 <= i < 4 ==> (#[trigger] self.rows@[i]) < (1u32 << self.width)
        &&& forall|i: int| self.height <= i < 4 ==> (#[trigger] self.rows@[i]) == 0
    }
}

/// Number of rotation variants of each piece kind.
pub open spec fn rotations_spec(kind: int) -> int {
    if kind == 0 {
        2
    } else if kind == 1 {
        4
    } else if kind == 2 {
        1
    } else if kind == 3 || kind == 4 {
        4
    } else {
        2
    }
}

/// Number of rotation variants of a piece kind.
pub fn num_rotations(kind: usize) -> (r: usize)
    requires
        kind < NUM_KINDS,
    ensures
        r == rotations_spec(kind as int),
        1 <= r <= 4,
{
    if kind == 0 {
        2
    } else if kind == 1 {
        4
    } else if kind == 2 {
        1
    } else if kind == 3 || kind == 4 {
        4
    } else {
        2
    }
}

pub open spec fn mk(width: u32, height: u32, r0: u32, r1: u32, r2: u32, r3: u32) -> Shape {
    Shape { width, height, rows: [r0, r1, r2, r3] }
}

/// The geometry table: rotation `rot` of piece kind `kind`.
pub open spec fn shape_spec(kind: int, rot: int) -> Shape {
    if kind == 0 {
        if rot == 0 { mk(1, 4, 1, 1, 1, 1) } else { mk(4, 1, 15, 0, 0, 0) }
    } else if kind == 1 {
        if rot == 0 {
            mk(3, 2, 2, 7, 0, 0)
        } else if rot == 1 {
            mk(2, 3, 2, 3, 2, 0)
        } else if rot == 2 {
            mk(3, 2, 7, 2, 0, 0)
        } else {
            mk(2, 3, 1, 3, 1, 0)
        }
    } else if kind == 2 {
        mk(2, 2, 3, 3, 0, 0)
    } else if kind == 3 {
        if rot == 0 {
            mk(2, 3, 2, 2, 3, 0)
        } else if rot == 1 {
            mk(3, 2, 7, 4, 0, 0)
        } else if rot == 2 {
            mk(2, 3, 3, 1, 1, 0)
        } else {
            mk(3, 2, 1, 7, 0, 0)
        }
    } else if kind == 4 {
        if rot == 0 {
            mk(3, 2, 7, 1, 0, 0)
        } else if rot == 1 {
            mk(2, 3, 1, 1, 3, 0)
        } else if rot == 2 {
            mk(3, 2, 4, 7, 0, 0)
        } else {
            mk(2, 3, 3, 2, 2, 0)
        }
    } else if kind == 5 {
        if rot == 0 { mk(3, 2, 6, 3, 0, 0) } else { mk(2, 3, 1, 3, 2, 0) }
    } else {
        if rot == 0 { mk(3, 2, 3, 6, 0, 0) } else { mk(2, 3, 2, 3, 1, 0) }
    }
}

fn make(width: u32, height: u32, r0: u32, r1: u32, r2: u32, r3: u32) -> (s: Shape)
    ensures
        s == mk(width, height, r0, r1, r2, r3),
{
    Shape { width, height, rows: [r0, r1, r2, r3] }
}

/// Rotation `rot` of piece kind `kind`, from the geometry table.
pub fn shape(kind: usize, rot: usize) -> (s: Shape)
    requires
        kind < NUM_KINDS,
        rot < rotations_spec(kind as int),
    ensures
        s == shape_spec(kind as int, rot as int),
        s.wf(),
{
    let s = if kind == 0 {
        if rot == 0 { make(1, 4, 1, 1, 1, 1) } else { make(4, 1, 15, 0, 0, 0) }
    } else if kind == 1 {
        if rot == 0 {
            make(3, 2, 2, 7, 0, 0)
        } else if rot == 1 {
            make(2, 3, 2, 3, 2, 0)
        } else if rot == 2 {
            make(3, 2, 7, 2, 0, 0)
        } else {
            make(2, 3, 1, 3, 1, 0)
        }
    } else if kind == 2 {
        make(2, 2, 3, 3, 0, 0)
    } else if kind == 3 {
        if rot == 0 {
            make(2, 3, 2, 2, 3, 0)
        } else if rot == 1 {
            make(3, 2, 7, 4, 0, 0)
        } else if rot == 2 {
            make(2, 3, 3, 1, 1, 0)
        } else {
            make(3, 2, 1, 7, 0, 0)
        }
    } else if kind == 4 {
        if rot == 0 {
            make(3, 2, 7, 1, 0, 0)
        } else if rot == 1 {
            make(2, 3, 1, 1, 3, 0)
        } else if rot == 2 {
            make(3, 2, 4, 7, 0, 0)
        } else {
            make(2, 3, 3, 2, 2, 0)
        }
    } else if kind == 5 {
        if rot == 0 { make(3, 2, 6, 3, 0, 0) } else { make(2, 3, 1, 3, 2, 0) }
    } else {
        if rot == 0 { make(3, 2, 3, 6, 0, 0) } else { make(2, 3, 2, 3, 1, 0) }
    };
    proof {
        assert(1u32 << 1u32 == 2) by (bit_vector);
        assert(1u32 << 2u32 == 4) by (bit_vector);
        assert(1u32 << 3u32 == 8) by (bit_vector);
        assert(1u32 << 4u32 == 16) by (bit_vector);
    }
    s
}

} // verus!
