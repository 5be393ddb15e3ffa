use tetris_ga::{evaluate, Board, Candidate, Features, Game, LcgProvider, Placement, Provider};

const WEIGHTS: [f64; 6] = [
    -0.8229968113792483,
    0.3816371409567763,
    -0.3822535695191802,
    -1.6210899838124477,
    -0.7829249929709147,
    -0.524241666771028,
];

fn score(w: &[f64; 6], f: &Features) -> f64 {
    w[0] * (f.landing_height_x2 as f64 / 2.0)
        + w[1] * f.cleared as f64
        + w[2] * f.row_transitions as f64
        + w[3] * f.column_transitions as f64
        + w[4] * f.holes as f64
        + w[5] * f.well_sum as f64
}

fn best(w: &[f64; 6], cs: &[Candidate]) -> (f64, Placement) {
    let mut best_score = -1e9;
    let mut best = Placement { rotation: 0, x: 0, y: 0 };
    for c in cs {
        let s = score(w, &c.features);
        if s > best_score {
            best_score = s;
            best = c.placement;
        }
    }
    (best_score, best)
}

fn play(seed: u64, limit: u32) -> (u64, u64) {
    let mut g = Game::new(10, 20, Provider::Lcg(LcgProvider::new(seed)));
    let mut lines = 0u64;
    for _ in 0..limit {
        if !g.alive {
            break;
        }
        let cs = g.candidates();
        let (_, p) = best(&WEIGHTS, &cs);
        lines += g.place(p) as u64;
    }
    (lines, g.count - 1)
}

#[test]
fn new_game_spawns_first_piece() {
    let g = Game::new(10, 20, Provider::Lcg(LcgProvider::new(12345)));
    assert!(g.alive);
    assert_eq!(g.count, 1);
    assert_eq!((g.current, g.next), (6, 6));
    assert_eq!((g.rotation, g.x, g.y), (0, 4, 0));
    assert_eq!(g.board.rows, vec![0; 20]);
}

#[test]
fn candidates_cover_rotations_and_columns_in_order() {
    let mut g = Game::new(10, 20, Provider::Lcg(LcgProvider::new(12345)));
    g.current = 0;
    let cs = g.candidates();
    assert_eq!(cs.len(), 10 + 7);
    for (i, c) in cs.iter().enumerate() {
        let (rot, x) = if i < 10 { (0, i as i32) } else { (1, i as i32 - 10) };
        assert_eq!((c.placement.rotation, c.placement.x), (rot, x));
        assert_eq!(c.placement.y, if rot == 0 { 16 } else { 19 });
    }
    g.current = 1;
    assert_eq!(g.candidates().len(), 8 + 9 + 8 + 9);
    g.current = 2;
    assert_eq!(g.candidates().len(), 9);
}

#[test]
fn candidate_rests_on_stack() {
    let mut g = Game::new(4, 6, Provider::Lcg(LcgProvider::new(1)));
    g.board.rows = vec![0, 0, 0, 0, 0b0010, 0b1111 - 0b0001];
    g.current = 2;
    let cs = g.candidates();
    let ys: Vec<i32> = cs.iter().map(|c| c.placement.y).collect();
    assert_eq!(ys, vec![2, 2, 3]);
}

#[test]
fn candidate_features_match_committed_board() {
    let mut g = Game::new(10, 20, Provider::Lcg(LcgProvider::new(99)));
    for _ in 0..30 {
        let cs = g.candidates();
        let (s, p) = best(&WEIGHTS, &cs);
        let kind = g.current;
        let mut scratch = Board { width: 10, height: 20, rows: g.board.rows.clone() };
        scratch.commit(&tetris_ga::shape(kind, p.rotation), p.x, p.y);
        let again = evaluate(10, &scratch.rows, kind, p.y, p.rotation);
        assert_eq!(score(&WEIGHTS, &again), s);
        g.place(p);
        if !g.alive {
            break;
        }
    }
}

#[test]
fn place_clears_rows_and_spawns() {
    let mut g = Game::new(4, 6, Provider::Lcg(LcgProvider::new(12345)));
    g.board.rows = vec![0, 0, 0, 0, 0, 0b1110];
    g.current = 0;
    let next = g.next;
    let lines = g.place(Placement { rotation: 0, x: 0, y: 2 });
    assert_eq!(lines, 1);
    assert_eq!(g.board.rows, vec![0, 0, 0, 0b0001, 0b0001, 0b0001]);
    assert!(g.alive);
    assert_eq!(g.count, 2);
    assert_eq!(g.current, next);
}

#[test]
fn place_touching_top_row_ends_game() {
    let mut g = Game::new(4, 6, Provider::Lcg(LcgProvider::new(12345)));
    g.board.rows = vec![0, 0, 0b0001, 0b0001, 0b0001, 0b0001];
    g.current = 0;
    let count = g.count;
    let current = g.current;
    g.place(Placement { rotation: 1, x: 0, y: 0 });
    assert!(!g.alive);
    assert_eq!(g.count, count);
    assert_eq!(g.current, current);
}

#[test]
fn lcg_game_is_deterministic() {
    let a = play(12345, 3000);
    let b = play(12345, 3000);
    assert_eq!(a, b);
    assert!(a.0 > 0);
}
