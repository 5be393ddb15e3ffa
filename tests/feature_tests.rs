use tetris_ga::{evaluate, Features};

fn score(w: &[f64; 6], f: &Features) -> f64 {
    w[0] * (f.landing_height_x2 as f64 / 2.0)
        + w[1] * f.cleared as f64
        + w[2] * f.row_transitions as f64
        + w[3] * f.column_transitions as f64
        + w[4] * f.holes as f64
        + w[5] * f.well_sum as f64
}

#[test]
fn evaluate_mixed_board() {
    // an O piece resting at row 2 completed row 3
    let rows = vec![0, 0, 0b0001, 0b1111, 0b0101, 0b1011];
    let f = evaluate(4, &rows, 2, 2, 0);
    assert_eq!(
        f,
        Features {
            landing_height_x2: 33,
            cleared: 1,
            row_transitions: 14,
            column_transitions: 6,
            holes: 1,
            well_sum: 3,
        }
    );
    assert_eq!(rows, vec![0, 0, 0b0001, 0b1111, 0b0101, 0b1011]);
}

#[test]
fn evaluate_empty_board() {
    let f = evaluate(10, &vec![0; 20], 0, 16, 0);
    assert_eq!(f.landing_height_x2, 3);
    assert_eq!(f.cleared, 0);
    assert_eq!(f.row_transitions, 40);
    assert_eq!(f.column_transitions, 10);
    assert_eq!(f.holes, 0);
    assert_eq!(f.well_sum, 0);
}

#[test]
fn evaluate_landing_height_uses_design_height() {
    // the constant 20 is kept whatever the board height
    let f = evaluate(4, &vec![0; 6], 0, 5, 1);
    assert_eq!(f.landing_height_x2, 28);
    let g = evaluate(10, &vec![0; 20], 0, 19, 1);
    assert_eq!(g.landing_height_x2, 0);
}

#[test]
fn zero_weights_score_zero_on_empty_board() {
    let zero = [0.0f64; 6];
    for kind in 0..7 {
        for rot in 0..tetris_ga::num_rotations(kind) {
            let f = evaluate(10, &vec![0; 20], kind, 0, rot);
            assert_eq!(score(&zero, &f), 0.0);
        }
    }
}

#[test]
fn holes_do_not_drop_when_column_is_covered() {
    let before = vec![0, 0, 0, 0b0001, 0b0000, 0b0001];
    let after = vec![0, 0, 0b0001, 0b0001, 0b0000, 0b0001];
    let a = evaluate(4, &before, 0, 0, 0);
    let b = evaluate(4, &after, 0, 0, 0);
    assert_eq!(a.holes, 1);
    assert!(b.holes >= a.holes);
    let higher = vec![0b0001, 0, 0b0001, 0b0001, 0b0000, 0b0001];
    assert_eq!(evaluate(4, &higher, 0, 0, 0).holes, 2);
}

#[test]
fn wells_count_triangular_runs() {
    // column 1 is a well of depth 3 between filled columns 0 and 2
    let rows = vec![0, 0b0101, 0b0101, 0b0101];
    let f = evaluate(4, &rows, 2, 0, 0);
    // the run of three adds 1 + 2 + 3; column 3 adds 1 + 2 + 3 as an edge well
    assert_eq!(f.well_sum, 12);
}
