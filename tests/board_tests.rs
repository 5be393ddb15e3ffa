use tetris_ga::{shape, Board, NUM_KINDS};

fn board(width: u32, rows: Vec<u32>) -> Board {
    Board { width, height: rows.len() as u32, rows }
}

#[test]
fn rotation_counts_follow_symmetry() {
    let counts: Vec<usize> = (0..NUM_KINDS).map(tetris_ga::num_rotations).collect();
    assert_eq!(counts, vec![2, 4, 1, 4, 4, 2, 2]);
}

#[test]
fn shape_rows_use_only_width_bits() {
    for kind in 0..NUM_KINDS {
        for rot in 0..tetris_ga::num_rotations(kind) {
            let s = shape(kind, rot);
            for i in 0..4u32 {
                if i < s.height {
                    assert!(s.row(i) > 0 && s.row(i) < (1 << s.width));
                } else {
                    assert_eq!(s.row(i), 0);
                }
            }
        }
    }
    let t = shape(1, 0);
    assert_eq!((t.width, t.height, t.rows), (3, 2, [2, 7, 0, 0]));
}

#[test]
fn collided_outside_bounds_regardless_of_contents() {
    let empty = Board::new(10, 20);
    let mut filled = Board::new(10, 20);
    for r in filled.rows.iter_mut() {
        *r = 0x3ff;
    }
    let s = shape(1, 0);
    for b in [&empty, &filled] {
        assert!(b.collided(&s, -1, 0));
        assert!(b.collided(&s, 8, 0));
        assert!(b.collided(&s, 0, 19));
        assert!(b.collided(&s, 100, 3));
    }
    assert!(!empty.collided(&s, 7, 18));
    assert!(filled.collided(&s, 7, 18));
}

#[test]
fn collided_detects_overlap() {
    let b = board(4, vec![0, 0, 0, 0b0100]);
    let o = shape(2, 0);
    assert!(!b.collided(&o, 0, 2));
    assert!(b.collided(&o, 1, 2));
    assert!(b.collided(&o, 2, 2));
    assert!(!b.collided(&o, 2, 1));
}

#[test]
fn commit_ors_shifted_rows() {
    let mut b = board(4, vec![0, 0, 0, 0b0100]);
    let t = shape(1, 0);
    b.commit(&t, 1, 1);
    assert_eq!(b.rows, vec![0, 0b0100, 0b1110, 0b0100]);
}

#[test]
fn clear_full_rows_keeps_order_of_others() {
    let mut b = board(4, vec![0b0001, 0b1111, 0b0010, 0b1111, 0b0100, 0b1111]);
    let n = b.clear_full_rows();
    assert_eq!(n, 3);
    assert_eq!(b.rows, vec![0, 0, 0, 0b0001, 0b0010, 0b0100]);
}

#[test]
fn clear_full_rows_on_empty_board() {
    let mut b = Board::new(10, 20);
    assert_eq!(b.clear_full_rows(), 0);
    assert_eq!(b.rows, vec![0; 20]);
}

#[test]
fn clear_full_rows_includes_top_row() {
    let mut b = board(4, vec![0b1111, 0b0011]);
    assert_eq!(b.clear_full_rows(), 1);
    assert_eq!(b.rows, vec![0, 0b0011]);
}

#[test]
fn full_row_of_widest_board() {
    let b = Board::new(31, 4);
    assert_eq!(b.full_row(), 0x7fff_ffff);
    assert_eq!(Board::new(10, 4).full_row(), 1023);
}
