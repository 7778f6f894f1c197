use vstd::prelude::*;
use crate::similarity::{
    get_similarity, is_token_set, jaccard, token_set, round_div, round_div_spec, SCALE, PRECISION,
};
use crate::report::Similarities;
use crate::tokenizer::{get_stripped_string, tokens_of};

verus! {

/// Every record of the collection is a token set.
pub open spec fn all_token_sets(records: Seq<Vec<String>>) -> bool {
    forall|k: int| 0 <= k < records.len() ==> #[trigger] is_token_set(records[k]@)
}

/// The score of row `i` at column `k`: record `i` against record `i + 1 + k`.
pub open spec fn row_score(records: Seq<Vec<String>>, i: int, k: int) -> int {
    jaccard(token_set(records[i]@), token_set(records[i + 1 + k]@))
}

/// Scores of set `i` against each later set, in order.
pub open spec fn score_row(sets: Seq<Set<Seq<char>>>, i: int) -> Seq<u64> {
    Seq::new((sets.len() - i - 1) as nat, |k: int| jaccard(sets[i], sets[i + 1 + k]) as u64)
}

/// The scores of the first `i` rows, row after row.
pub open spec fn scores_upto(sets: Seq<Set<Seq<char>>>, i: nat) -> Seq<u64>
    decreases i,
{
    if i == 0 {
        Seq::empty()
    } else {
        scores_upto(sets, (i - 1) as nat) + score_row(sets, i - 1)
    }
}

/// The score of every pair `i < j` of sets, ordered by `i`, then by `j`.
pub open spec fn pair_scores(sets: Seq<Set<Seq<char>>>) -> Seq<u64> {
    scores_upto(sets, row_count(sets.len()))
}

/// The word set of each token set.
pub open spec fn record_sets(records: Seq<Vec<String>>) -> Seq<Set<Seq<char>>> {
    records.map_values(|v: Vec<String>| token_set(v@))
}

/// The word set of each record's content.
pub open spec fn text_sets(records: Seq<(String, String)>) -> Seq<Set<Seq<char>>> {
    records.map_values(|p: (String, String)| tokens_of(p.1@))
}

/// Number of rows of comparisons among `n` records.
pub open spec fn row_count(n: nat) -> nat {
    if n == 0 {
        0
    } else {
        (n - 1) as nat
    }
}

/// Sum of a sequence of scores.
pub open spec fn sum(s: Seq<u64>) -> int
    decreases s.len(),
{
    if s.len() == 0 {
        0
    } else {
        sum(s.drop_last()) + s.last()
    }
}

/// The running bounds after one score: the minimum moves only on a strictly smaller
/// score; otherwise the maximum moves only on a strictly larger one.
pub open spec fn step_bounds(b: (int, int), v: int) -> (int, int) {
    if v < b.0 {
        (v, b.1)
    } else if v > b.1 {
        (b.0, v)
    } else {
        b
    }
}

/// The bounds after all scores, both seeded at zero.
pub open spec fn bounds(s: Seq<u64>) -> (int, int)
    decreases s.len(),
{
    if s.len() == 0 {
        (0, 0)
    } else {
        step_bounds(bounds(s.drop_last()), s.last() as int)
    }
}

/// The mean of the scores rounded to the score precision; zero for no scores.
pub open spec fn mean(s: Seq<u64>) -> int {
    if s.len() == 0 {
        0
    } else {
        round_div_spec(sum(s), s.len() as int)
    }
}

/// Every score lies in `0 ..= SCALE`.
pub open spec fn scores_in_range(s: Seq<u64>) -> bool {
    forall|k: int| 0 <= k < s.len() ==> #[trigger] s[k] <= SCALE
}

/// Scores of record `i` against every later record, in order.
pub fn compare_row(records: &Vec<Vec<String>>, i: usize) -> (r: Vec<u64>)
    requires
        all_token_sets(records@),
        i < records@.len(),
    ensures
        r@.len() == records@.len() - i - 1,
        forall|k: int| 0 <= k < r@.len() ==> #[trigger] r@[k] == row_score(records@, i as int, k),
        scores_in_range(r@),
{
    let mut similarities: Vec<u64> = Vec::new();
    let n = records.len();
    let mut j: usize = i + 1;
    while j < records.len()
        invariant
            all_token_sets(records@),
            i < j <= records@.len(),
            similarities@.len() == j - i - 1,
            forall|k: int|
                0 <= k < similarities@.len() ==> #[trigger] similarities@[k] == row_score(
                    records@,
                    i as int,
                    k,
                ),
            scores_in_range(similarities@),
        decreases records@.len() - j,
    {
        assert(is_token_set(records@[i as int]@));
        assert(is_token_set(records@[j as int]@));
        let sim = get_similarity(&records[i], &records[j]);
        similarities.push(sim);
        assert(i + 1 + (j - i - 1) == j);
        j += 1;
    }
    similarities
}

/// All rows of the upper triangle of comparisons: one row per record but the last.
pub fn run_similarities(records: &Vec<Vec<String>>) -> (r: Vec<Vec<u64>>)
    requires
        all_token_sets(records@),
    ensures
        r@.len() == row_count(records@.len() as nat),
        forall|i: int|
            0 <= i < r@.len() ==> (#[trigger] r@[i])@.len() == records@.len() - i - 1,
        forall|i: int, k: int|
            0 <= i < r@.len() && 0 <= k < r@[i]@.len() ==> #[trigger] r@[i]@[k] == row_score(
                records@,
                i,
                k,
            ),
        forall|i: int| 0 <= i < r@.len() ==> scores_in_range(#[trigger] r@[i]@),
{
    let mut rows: Vec<Vec<u64>> = Vec::new();
    if records.len() == 0 {
        return rows;
    }
    let mut i: usize = 0;
    while i < records.len() - 1
        invariant
            all_token_sets(records@),
            records@.len() > 0,
            i <= records@.len() - 1,
            rows@.len() == i,
            forall|p: int| 0 <= p < rows@.len() ==> (#[trigger] rows@[p])@.len() == records@.len() - p - 1,
            forall|p: int, k: int|
                0 <= p < rows@.len() && 0 <= k < rows@[p]@.len() ==> #[trigger] rows@[p]@[k]
                    == row_score(records@, p, k),
            forall|p: int| 0 <= p < rows@.len() ==> scores_in_range(#[trigger] rows@[p]@),
        decreases records@.len() - i,
    {
        let row = compare_row(records, i);
        rows.push(row);
        i += 1;
    }
    rows
}

/// Running statistics over a stream of score batches.
pub struct Aggregator {
    pub results: Vec<u64>,
    pub total: u128,
    pub min: u64,
    pub max: u64,
}

impl Aggregator {
    /// The statistics agree with the scores seen so far.
    pub open spec fn wf(&self) -> bool {
        &&& self.total == sum(self.results@)
        &&& (self.min as int, self.max as int) == bounds(self.results@)
        &&& scores_in_range(self.results@)
    }

    /// An aggregator that has seen no score.
    pub fn new() -> (r: Aggregator)
        ensures
            r.wf(),
            r.results@ == Seq::<u64>::empty(),
    {
        Aggregator { results: Vec::new(), total: 0, min: 0, max: 0 }
    }

    /// Takes in one batch of scores, in order.
    pub fn add_batch(&mut self, batch: &Vec<u64>)
        requires
            old(self).wf(),
            scores_in_range(batch@),
            old(self).results@.len() + batch@.len() <= usize::MAX,
        ensures
            final(self).wf(),
            final(self).results@ == old(self).results@ + batch@,
    {
        let ghost start = self.results@;
        let mut k: usize = 0;
        while k < batch.len()
            invariant
                self.wf(),
                0 <= k <= batch@.len(),
                scores_in_range(batch@),
                start.len() + batch@.len() <= usize::MAX,
                self.results@ == start + batch@.take(k as int),
            decreases batch@.len() - k,
        {
            let similarity = batch[k];
            let ghost before = self.results@;
            proof {
                lemma_sum_bound(before);
            }
            self.total = self.total + similarity as u128;
            if similarity < self.min {
                self.min = similarity;
            } else if similarity > self.max {
                self.max = similarity;
            }
            self.results.push(similarity);
            proof {
                assert(self.results@.drop_last() =~= before);
                assert(batch@.take(k as int + 1) =~= batch@.take(k as int).push(similarity));
                assert forall|p: int| 0 <= p < self.results@.len() implies #[trigger] self.results@[p] <= SCALE by {
                    if p < before.len() {
                        assert(self.results@[p] == before[p]);
                    }
                }
            }
            k += 1;
        }
        assert(batch@.take(batch@.len() as int) =~= batch@);
    }

    /// The finished results: every score seen, their rounded mean and the bounds.
    pub fn finish(self) -> (r: Similarities)
        requires
            self.wf(),
        ensures
            r.results@ == self.results@,
            r.avg == mean(self.results@),
            r.min == bounds(self.results@).0,
            r.max == bounds(self.results@).1,
            r.precision == PRECISION,
    {
        let count = self.results.len();
        let avg: u64 = if count == 0 {
            0
        } else {
            proof {
                lemma_sum_bound(self.results@);
                lemma_mean_bound(self.results@);
            }
            round_div(self.total, count as u128) as u64
        };
        Similarities::new(self.results, avg, self.min, self.max, PRECISION as usize)
    }
}

proof fn lemma_sum_bound(s: Seq<u64>)
    requires
        scores_in_range(s),
    ensures
        0 <= sum(s) <= SCALE * s.len(),
    decreases s.len(),
{
    if s.len() > 0 {
        assert(scores_in_range(s.drop_last()));
        lemma_sum_bound(s.drop_last());
    }
}

proof fn lemma_mean_bound(s: Seq<u64>)
    requires
        scores_in_range(s),
        s.len() > 0,
    ensures
        0 <= mean(s) <= SCALE,
{
    lemma_sum_bound(s);
    let n = s.len() as int;
    let t = sum(s);
    assert((2 * t + n) / (2 * n) <= SCALE) by (nonlinear_arith)
        requires
            0 <= t <= SCALE * n,
            n > 0,
    ;
    assert((2 * t + n) / (2 * n) >= 0) by (nonlinear_arith)
        requires
            0 <= t,
            n > 0,
    ;
}

/// The mean of scores that are all equal to `v` is `v`.
pub proof fn lemma_mean_constant(s: Seq<u64>, v: u64)
    requires
        s.len() > 0,
        forall|k: int| 0 <= k < s.len() ==> #[trigger] s[k] == v,
    ensures
        mean(s) == v,
{
    lemma_sum_constant(s, v);
    let n = s.len() as int;
    assert((2 * (v * n) + n) / (2 * n) == v) by (nonlinear_arith)
        requires
            n > 0,
    ;
}

/// Scores never fall below zero, so the minimum keeps its seed of zero; the maximum is
/// at least every score, and is one of them unless it is still at its seed.
pub proof fn lemma_bounds_seeded(s: Seq<u64>)
    ensures
        bounds(s).0 == 0,
        forall|k: int| 0 <= k < s.len() ==> s[k] <= #[trigger] bounds(s).1,
        bounds(s).1 == 0 || exists|k: int| 0 <= k < s.len() && s[k] == bounds(s).1,
    decreases s.len(),
{
    if s.len() > 0 {
        let t = s.drop_last();
        lemma_bounds_seeded(t);
        assert forall|k: int| 0 <= k < s.len() implies s[k] <= #[trigger] bounds(s).1 by {
            if k < t.len() {
                assert(s[k] == t[k]);
            }
        }
        if bounds(s).1 != 0 && bounds(s).1 == bounds(t).1 {
            let k = choose|k: int| 0 <= k < t.len() && t[k] == bounds(t).1;
            assert(s[k] == t[k]);
        }
        if bounds(s).1 != bounds(t).1 {
            assert(s[s.len() - 1] == bounds(s).1);
        }
    }
}

/// Records whose word sets share no word give a zero score for every pair, a zero
/// mean, and bounds that stay at their zero seed.
pub proof fn lemma_disjoint_records(sets: Seq<Set<Seq<char>>>)
    requires
        forall|i: int, j: int|
            0 <= i < j < sets.len() ==> (#[trigger] sets[i]).intersect(#[trigger] sets[j]).len()
                == 0,
    ensures
        forall|k: int| 0 <= k < pair_scores(sets).len() ==> #[trigger] pair_scores(sets)[k] == 0,
        mean(pair_scores(sets)) == 0,
        bounds(pair_scores(sets)) == (0int, 0int),
{
    lemma_disjoint_rows(sets, row_count(sets.len()));
    let s = pair_scores(sets);
    if s.len() > 0 {
        lemma_mean_constant(s, 0);
    }
    lemma_bounds_seeded(s);
    if bounds(s).1 != 0 {
        let k = choose|k: int| 0 <= k < s.len() && s[k] == bounds(s).1;
    }
}

proof fn lemma_disjoint_rows(sets: Seq<Set<Seq<char>>>, i: nat)
    requires
        i <= row_count(sets.len()),
        forall|p: int, q: int|
            0 <= p < q < sets.len() ==> (#[trigger] sets[p]).intersect(#[trigger] sets[q]).len()
                == 0,
    ensures
        forall|k: int| 0 <= k < scores_upto(sets, i).len() ==> #[trigger] scores_upto(sets, i)[k] == 0,
    decreases i,
{
    if i > 0 {
        lemma_disjoint_rows(sets, (i - 1) as nat);
        let prev = scores_upto(sets, (i - 1) as nat);
        let row = score_row(sets, i - 1);
        assert forall|k: int| 0 <= k < row.len() implies #[trigger] row[k] == 0 by {
            let a = sets[i - 1];
            let b = sets[i - 1 + 1 + k];
            assert(a.intersect(b).len() == 0);
            let u: int = (a.len() + b.len()) as int;
            if u != 0 {
                assert((2 * (SCALE as int * 0) + u) / (2 * u) == 0) by (nonlinear_arith)
                    requires
                        u > 0,
                ;
            }
        }
        assert forall|k: int| 0 <= k < scores_upto(sets, i).len() implies #[trigger] scores_upto(sets, i)[k] == 0 by {
            if k < prev.len() {
                assert(scores_upto(sets, i)[k] == prev[k]);
            } else {
                assert(scores_upto(sets, i)[k] == row[k - prev.len()]);
            }
        }
    }
}

proof fn lemma_sum_constant(s: Seq<u64>, v: u64)
    requires
        forall|k: int| 0 <= k < s.len() ==> #[trigger] s[k] == v,
    ensures
        sum(s) == v * s.len(),
    decreases s.len(),
{
    if s.len() > 0 {
        let t = s.drop_last();
        assert forall|k: int| 0 <= k < t.len() implies #[trigger] t[k] == v by {
            assert(t[k] == s[k]);
        }
        lemma_sum_constant(t, v);
        assert(v * t.len() + v == v * s.len()) by (nonlinear_arith)
            requires
                t.len() + 1 == s.len(),
        ;
    }
}

/// Scores in the first `i` rows among `n` records.
pub open spec fn rows_total(n: nat, i: nat) -> int
    decreases i,
{
    if i == 0 {
        0
    } else {
        rows_total(n, (i - 1) as nat) + n - i
    }
}

proof fn lemma_rows_total_closed(n: nat, i: nat)
    requires
        i <= n,
    ensures
        2 * rows_total(n, i) == 2 * i * n - i * (i + 1),
    decreases i,
{
    if i > 0 {
        lemma_rows_total_closed(n, (i - 1) as nat);
        let j = (i - 1) as nat;
        let a = rows_total(n, j);
        let b = rows_total(n, i);
        assert(2 * a == 2 * j * n - j * (j + 1));
        assert(b == a + n - i);
        assert(2 * b == 2 * i * n - i * (i + 1)) by (nonlinear_arith)
            requires
                2 * a == 2 * j * n - j * (j + 1),
                j == i - 1,
                b == a + n - i,
                i > 0,
        ;
        assert(2 * rows_total(n, i) == 2 * i * n - i * (i + 1));
    } else {
        assert(rows_total(n, 0) == 0);
        assert(2 * i * n - i * (i + 1) == 0) by (nonlinear_arith)
            requires
                i == 0,
        ;
    }
}

proof fn lemma_rows_total_bound(n: nat, i: nat)
    requires
        i <= n,
    ensures
        0 <= rows_total(n, i) <= n * n,
{
    lemma_rows_total_closed(n, i);
    let t = rows_total(n, i);
    assert(0 <= t <= n * n) by (nonlinear_arith)
        requires
            2 * t == 2 * i * n - i * (i + 1),
            i <= n,
    ;
    assert(2 * i * n - i * (i + 1) <= 2 * n * n) by (nonlinear_arith)
        requires
            i <= n,
    ;
    assert(2 * i * n - i * (i + 1) >= 0) by (nonlinear_arith)
        requires
            i <= n,
    ;
}

proof fn lemma_rows_total_pairs(n: nat)
    ensures
        rows_total(n, row_count(n)) == crate::similarity::pairs(n),
{
    if n > 0 {
        let m = (n - 1) as nat;
        lemma_rows_total_closed(n, m);
        assert(2 * m * n - m * (m + 1) == n * (n - 1)) by (nonlinear_arith)
            requires
                m == n - 1,
        ;
        assert(n * (n - 1) >= 0) by (nonlinear_arith);
    }
}

/// Scores of all pairs of records, gathered batch by batch into finished results.
pub fn vec_to_similarities(records: &Vec<Vec<String>>) -> (r: Similarities)
    requires
        all_token_sets(records@),
        records@.len() * records@.len() <= usize::MAX,
    ensures
        r.results@ == pair_scores(record_sets(records@)),
        r.results@.len() == crate::similarity::pairs(records@.len() as nat),
        r.avg == mean(r.results@),
        r.min == bounds(r.results@).0,
        r.max == bounds(r.results@).1,
        r.precision == PRECISION,
{
    let rows = run_similarities(records);
    let ghost sets = record_sets(records@);
    let mut agg = Aggregator::new();
    let mut i: usize = 0;
    while i < rows.len()
        invariant
            agg.wf(),
            i <= rows@.len(),
            rows@.len() == row_count(records@.len() as nat),
            records@.len() * records@.len() <= usize::MAX,
            forall|p: int| 0 <= p < rows@.len() ==> (#[trigger] rows@[p])@.len() == records@.len() - p - 1,
            forall|p: int| 0 <= p < rows@.len() ==> scores_in_range(#[trigger] rows@[p]@),
            agg.results@.len() == rows_total(records@.len() as nat, i as nat),
            sets == record_sets(records@),
            agg.results@ == scores_upto(sets, i as nat),
            forall|p: int, k: int|
                0 <= p < rows@.len() && 0 <= k < rows@[p]@.len() ==> #[trigger] rows@[p]@[k]
                    == row_score(records@, p, k),
        decreases rows@.len() - i,
    {
        proof {
            lemma_rows_total_bound(records@.len() as nat, i as nat + 1);
            assert forall|k: int| 0 <= k < rows@[i as int]@.len() implies #[trigger] rows@[i as int]@[k]
                == score_row(sets, i as int)[k] by {
                assert(rows@[i as int]@[k] == row_score(records@, i as int, k));
                assert(sets[i as int] == token_set(records@[i as int]@));
                assert(sets[i as int + 1 + k] == token_set(records@[i as int + 1 + k]@));
            }
            assert(rows@[i as int]@ =~= score_row(sets, i as int));
        }
        agg.add_batch(&rows[i]);
        i += 1;
    }
    proof {
        lemma_rows_total_pairs(records@.len() as nat);
    }
    assert(sets.len() == records@.len());
    agg.finish()
}

/// The token set of each record's content, in the order of the records.
pub fn map_to_vec(records: &Vec<(String, String)>) -> (r: Vec<Vec<String>>)
    ensures
        r@.len() == records@.len(),
        all_token_sets(r@),
        forall|k: int| 0 <= k < r@.len() ==> token_set(#[trigger] r@[k]@) == tokens_of(records@[k].1@),
{
    let mut lines: Vec<Vec<String>> = Vec::new();
    let mut k: usize = 0;
    while k < records.len()
        invariant
            0 <= k <= records@.len(),
            lines@.len() == k,
            all_token_sets(lines@),
            forall|m: int| 0 <= m < k ==> token_set(#[trigger] lines@[m]@) == tokens_of(records@[m].1@),
        decreases records@.len() - k,
    {
        let set = get_stripped_string(records[k].1.as_str());
        lines.push(set);
        k += 1;
    }
    lines
}

/// Tokenizes every record and scores all pairs of them.
pub fn run(records: &Vec<(String, String)>) -> (r: Similarities)
    requires
        records@.len() * records@.len() <= usize::MAX,
    ensures
        r.results@ == pair_scores(text_sets(records@)),
        r.results@.len() == crate::similarity::pairs(records@.len() as nat),
        r.avg == mean(r.results@),
        r.min == bounds(r.results@).0,
        r.max == bounds(r.results@).1,
        r.precision == PRECISION,
{
    let sets = map_to_vec(records);
    assert(record_sets(sets@) =~= text_sets(records@));
    vec_to_similarities(&sets)
}

} // verus!
