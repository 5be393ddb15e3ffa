use tetris_ga::{BagProvider, LcgProvider, Provider};

#[test]
fn bag_deals_each_kind_seven_times_per_cycle() {
    for seed in [0u64, 1, 42, 12345, u64::MAX] {
        let mut p = BagProvider::new(seed);
        for _cycle in 0..3 {
            let mut counts = [0usize; 7];
            for _ in 0..49 {
                counts[p.next()] += 1;
            }
            assert_eq!(counts, [7; 7]);
            assert!(p.pool.is_empty());
        }
    }
}

#[test]
fn bag_pool_is_shuffled() {
    let unshuffled: Vec<usize> = (0..49).rev().map(|i| i % 7).collect();
    let mut differs = 0;
    for seed in 0..4u64 {
        let mut p = BagProvider::new(seed);
        let dealt: Vec<usize> = (0..49).map(|_| p.next()).collect();
        if dealt != unshuffled {
            differs += 1;
        }
    }
    assert!(differs > 0);
}

#[test]
fn bag_same_seed_same_order() {
    let mut a = BagProvider::new(7);
    let mut b = BagProvider::new(7);
    let da: Vec<usize> = (0..100).map(|_| a.next()).collect();
    let db: Vec<usize> = (0..100).map(|_| b.next()).collect();
    assert_eq!(da, db);
}

#[test]
fn lcg_first_draws() {
    let mut p = LcgProvider::new(12345);
    let d: Vec<usize> = (0..5).map(|_| p.next()).collect();
    assert_eq!(d, vec![6, 6, 4, 5, 1]);
    let mut z = LcgProvider::new(0);
    assert_eq!(z.next(), 0);
    assert_eq!(z.state, 12345);
}

#[test]
fn lcg_seed_truncated_to_32_bits() {
    let mut a = LcgProvider::new(12345 + (1u64 << 32));
    assert_eq!(a.state, 12345);
    assert_eq!(a.next(), 6);
}

#[test]
fn lcg_reproducible_and_seed_sensitive() {
    let mut a = LcgProvider::new(2024);
    let mut b = LcgProvider::new(2024);
    let mut c = LcgProvider::new(2025);
    let mut same = true;
    let mut differs = false;
    for _ in 0..10_000 {
        let x = a.next();
        same &= x == b.next();
        differs |= x != c.next();
    }
    assert!(same);
    assert!(differs);
}

#[test]
fn provider_dispatches_to_variant() {
    let mut p = Provider::Lcg(LcgProvider::new(12345));
    assert_eq!(p.next(), 6);
    let mut q = Provider::Bag(BagProvider::new(3));
    let mut counts = [0usize; 7];
    for _ in 0..49 {
        counts[q.next()] += 1;
    }
    assert_eq!(counts, [7; 7]);
}
