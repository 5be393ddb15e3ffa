use vstd::prelude::*;

verus! {

/// Genes in one weight vector: one per feature.
pub const NUM_WEIGHTS: usize = 6;

/// Individual `u` ranks ahead of `v`: higher score, or equal score and
/// earlier position.
pub open spec fn ahead(scores: Seq<u64>, u: int, v: int) -> bool {
    scores[u] > scores[v] || (scores[u] == scores[v] && u < v)
}

/// `ranked` lists every index of `scores` once, by descending score, equal
/// scores in the order of their indices.
pub open spec fn is_ranking(scores: Seq<u64>, ranked: Seq<usize>) -> bool {
    &&& ranked.len() == scores.len()
    &&& forall|i: int| 0 <= i < ranked.len() ==> #[trigger] ranked[i] < scores.len()
    &&& forall|i: int, j: int|
        0 <= i < j < ranked.len() ==> ahead(scores, #[trigger] ranked[i] as int, #[trigger] ranked[j] as int)
}

/// The indices of `scores` by descending score; the sort is stable.
pub fn rank_by_fitness(scores: &Vec<u64>) -> (ranked: Vec<usize>)
    ensures
        is_ranking(scores@, ranked@),
{
    let n = scores.len();
    let mut ranked: Vec<usize> = Vec::new();
    let mut i: usize = 0;
    while i < n
        invariant
            n == scores.len(),
            i <= n,
            ranked@.len() == i,
            forall|a: int| 0 <= a < ranked@.len() ==> #[trigger] ranked@[a] < i,
            forall|a: int, b: int|
                0 <= a < b < ranked@.len() ==> ahead(scores@, #[trigger] ranked@[a] as int, #[trigger] ranked@[b] as int),
        decreases n - i,
    {
        let mut p: usize = 0;
        while p < ranked.len() && scores[ranked[p]] >= scores[i]
            invariant
                n == scores.len(),
                i < n,
                ranked@.len() == i,
                p <= ranked@.len(),
                forall|a: int| 0 <= a < ranked@.len() ==> #[trigger] ranked@[a] < i,
                forall|a: int| 0 <= a < p ==> scores@[#[trigger] ranked@[a] as int] >= scores@[i as int],
            decreases ranked.len() - p,
        {
            p += 1;
        }
        let ghost old_r = ranked@;
        proof {
            assert forall|a: int| p <= a < old_r.len() implies scores@[#[trigger] old_r[a] as int] < scores@[i as int] by {
                if a > p {
                    assert(ahead(scores@, old_r[p as int] as int, old_r[a] as int));
                }
            }
        }
        ranked.insert(p, i);
        proof {
            let r = ranked@;
            assert(r == old_r.insert(p as int, i));
            assert forall|a: int| 0 <= a < r.len() implies #[trigger] r[a] < i + 1 by {
                if a > p {
                    assert(r[a] == old_r[a - 1]);
                }
            }
            assert forall|a: int, b: int| 0 <= a < b < r.len() implies ahead(scores@, #[trigger] r[a] as int, #[trigger] r[b] as int) by {
                if a < p && b < p {
                    assert(ahead(scores@, old_r[a] as int, old_r[b] as int));
                } else if a < p && b == p {
                    assert(old_r[a] < i);
                } else if a < p {
                    assert(r[b] == old_r[b - 1]);
                    assert(ahead(scores@, old_r[a] as int, old_r[b - 1] as int));
                } else if a == p {
                    assert(r[b] == old_r[b - 1]);
                } else {
                    assert(r[a] == old_r[a - 1]);
                    assert(r[b] == old_r[b - 1]);
                    assert(ahead(scores@, old_r[a - 1] as int, old_r[b - 1] as int));
                }
            }
        }
        i += 1;
    }
    ranked
}

/// The first of a ranking holds the highest score: the elite carried over
/// unchanged into the next generation is at least as fit as any individual
/// of the previous one.
pub proof fn lemma_first_ranked_is_best(scores: Seq<u64>, ranked: Seq<usize>)
    requires
        is_ranking(scores, ranked),
        scores.len() > 0,
    ensures
        forall|j: int| 0 <= j < scores.len() ==> #[trigger] scores[j] <= scores[ranked[0] as int],
{
    assert forall|j: int| 0 <= j < scores.len() implies #[trigger] scores[j] <= scores[ranked[0] as int] by {
        // `ranked` holds `scores.len()` distinct indices below it, so `j` is one of them.
        lemma_ranking_covers(scores, ranked, j);
        let k = choose|k: int| 0 <= k < ranked.len() && ranked[k] == j;
        if k > 0 {
            assert(ahead(scores, ranked[0] as int, ranked[k] as int));
        }
    }
}

/// Every index of `scores` appears in a ranking of it.
pub proof fn lemma_ranking_covers(scores: Seq<u64>, ranked: Seq<usize>, j: int)
    requires
        is_ranking(scores, ranked),
        0 <= j < scores.len(),
    ensures
        exists|k: int| 0 <= k < ranked.len() && ranked[k] == j,
{
    let idx = ranked.map_values(|v: usize| v as int);
    let s = idx.to_set();
    assert forall|a: int, b: int| 0 <= a < b < idx.len() implies idx[a] != idx[b] by {
        assert(ahead(scores, ranked[a] as int, ranked[b] as int));
    }
    idx.unique_seq_to_set();
    assert(s.subset_of(Set::new(|v: int| 0 <= v < scores.len())));
    vstd::set_lib::lemma_int_range(0, scores.len() as int);
    assert(Set::new(|v: int| 0 <= v < scores.len()) =~= vstd::set_lib::set_int_range(0, scores.len() as int));
    vstd::set_lib::lemma_subset_equality(s, vstd::set_lib::set_int_range(0, scores.len() as int));
    assert(s.contains(j));
    let k = choose|k: int| 0 <= k < idx.len() && idx[k] == j;
    assert(ranked[k] == j);
}

/// How many of `population_size` individuals are carried over unchanged:
/// `elitism_percent` per cent of them, rounded half up.
pub fn elite_count(population_size: usize, elitism_percent: usize) -> (k: usize)
    requires
        elitism_percent <= 100,
        population_size < usize::MAX / 100,
    ensures
        k == (elitism_percent * population_size + 50) / 100,
        k <= population_size,
{
    proof {
        assert(elitism_percent * population_size <= 100 * population_size) by (nonlinear_arith)
            requires
                elitism_percent <= 100,
        ;
    }
    (elitism_percent * population_size + 50) / 100
}

/// Roulette weight of a score: the score itself, or the score of one whole
/// line per trial when it is zero, so that every individual can be drawn.
/// Scores are totals over `trials` games and never negative.
pub open spec fn roulette_weight(score: u64, trials: u64) -> u64 {
    if score > 0 { score } else { trials }
}

/// The roulette weights of all scores.
pub fn selection_weights(scores: &Vec<u64>, trials: u64) -> (w: Vec<u64>)
    requires
        trials >= 1,
    ensures
        w@.len() == scores@.len(),
        forall|i: int| 0 <= i < w@.len() ==> #[trigger] w@[i] == roulette_weight(scores@[i], trials),
        forall|i: int| 0 <= i < w@.len() ==> #[trigger] w@[i] >= 1,
{
    let mut w: Vec<u64> = Vec::new();
    let mut i: usize = 0;
    while i < scores.len()
        invariant
            trials >= 1,
            i <= scores.len(),
            w@.len() == i,
            forall|a: int| 0 <= a < i ==> #[trigger] w@[a] == roulette_weight(scores@[a], trials),
        decreases scores.len() - i,
    {
        let s = scores[i];
        w.push(if s > 0 { s } else { trials });
        i += 1;
    }
    w
}

/// Sum of the first `n` weights.
pub open spec fn prefix_sum(w: Seq<u64>, n: int) -> int
    decreases n,
{
    if n <= 0 {
        0
    } else {
        prefix_sum(w, n - 1) + w[n - 1]
    }
}

proof fn lemma_prefix_sum_mono(w: Seq<u64>, a: int, b: int)
    requires
        0 <= a <= b <= w.len(),
    ensures
        prefix_sum(w, a) <= prefix_sum(w, b),
    decreases b - a,
{
    if a < b {
        lemma_prefix_sum_mono(w, a, b - 1);
    }
}

/// The roulette choice for a draw `r` in `[0, total)`: the index whose slice
/// `[prefix_sum(i), prefix_sum(i + 1))` holds `r`, so index `i` comes with
/// probability `w[i] / total` for a uniform draw.
pub fn roulette_pick(w: &Vec<u64>, r: u64) -> (i: usize)
    requires
        prefix_sum(w@, w@.len() as int) <= u64::MAX,
        r < prefix_sum(w@, w@.len() as int),
    ensures
        i < w@.len(),
        prefix_sum(w@, i as int) <= r < prefix_sum(w@, i + 1),
{
    let mut acc: u64 = 0;
    let mut i: usize = 0;
    loop
        invariant
            i < w@.len(),
            acc == prefix_sum(w@, i as int),
            acc <= r,
            prefix_sum(w@, w@.len() as int) <= u64::MAX,
            r < prefix_sum(w@, w@.len() as int),
        decreases w@.len() - i,
    {
        proof {
            lemma_prefix_sum_mono(w@, i + 1, w@.len() as int);
        }
        acc = acc + w[i];
        if r < acc {
            return i;
        }
        if i == w.len() - 1 {
            assert(false);
        }
        i += 1;
    }
}

/// Single-point crossover: the genes of `p1` before `point`, then those of
/// `p2` from `point` on.
pub fn crossover<T: Copy>(p1: &Vec<T>, p2: &Vec<T>, point: usize) -> (child: Vec<T>)
    requires
        p1@.len() == p2@.len(),
        point <= p1@.len(),
    ensures
        child@ == p1@.subrange(0, point as int) + p2@.subrange(point as int, p2@.len() as int),
{
    let mut child: Vec<T> = Vec::new();
    let mut i: usize = 0;
    while i < p1.len()
        invariant
            p1@.len() == p2@.len(),
            point <= p1@.len(),
            i <= p1@.len(),
            child@.len() == i,
            forall|a: int| 0 <= a < i ==> #[trigger] child@[a] == if a < point { p1@[a] } else { p2@[a] },
        decreases p1@.len() - i,
    {
        if i < point {
            child.push(p1[i]);
        } else {
            child.push(p2[i]);
        }
        i += 1;
    }
    assert(child@ =~= p1@.subrange(0, point as int) + p2@.subrange(point as int, p2@.len() as int));
    child
}

/// The first index holding the highest score.
pub fn best_index(scores: &Vec<u64>) -> (b: usize)
    requires
        scores@.len() > 0,
    ensures
        b < scores@.len(),
        forall|j: int| 0 <= j < scores@.len() ==> #[trigger] scores@[j] <= scores@[b as int],
        forall|j: int| 0 <= j < b ==> #[trigger] scores@[j] < scores@[b as int],
{
    let mut b: usize = 0;
    let mut i: usize = 1;
    while i < scores.len()
        invariant
            scores@.len() > 0,
            b < i <= scores@.len(),
            forall|j: int| 0 <= j < i ==> #[trigger] scores@[j] <= scores@[b as int],
            forall|j: int| 0 <= j < b ==> #[trigger] scores@[j] < scores@[b as int],
        decreases scores.len() - i,
    {
        if scores[i] > scores[b] {
            b = i;
        }
        i += 1;
    }
    b
}

} // verus!
