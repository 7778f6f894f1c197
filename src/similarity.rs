use vstd::prelude::*;

verus! {

/// Scores are held as integers counting units of `1 / SCALE`.
pub const SCALE: u64 = 1000;

/// Number of decimal digits kept in every score.
pub const PRECISION: u32 = 3;

/// The words of a token set as sequences of characters.
pub open spec fn tokens_view(v: Seq<String>) -> Seq<Seq<char>> {
    v.map_values(|s: String| s@)
}

/// A token set holds each word once.
pub open spec fn is_token_set(v: Seq<String>) -> bool {
    tokens_view(v).no_duplicates()
}

/// The set of words that a token set holds.
pub open spec fn token_set(v: Seq<String>) -> Set<Seq<char>> {
    tokens_view(v).to_set()
}

/// `n / d` rounded half away from zero (`n >= 0`, `d > 0`).
pub open spec fn round_div_spec(n: int, d: int) -> int {
    (2 * n + d) / (2 * d)
}

/// `n / d` scaled by `SCALE`, rounded half away from zero (`n >= 0`, `d > 0`).
pub open spec fn round_ratio_spec(n: int, d: int) -> int {
    round_div_spec(SCALE * n, d)
}

/// Jaccard index of two finite sets in units of `1 / SCALE`; two empty sets score 0.
pub open spec fn jaccard(a: Set<Seq<char>>, b: Set<Seq<char>>) -> int {
    let common = a.intersect(b).len() as int;
    let union = a.len() + b.len() - common;
    if union == 0 {
        0
    } else {
        round_ratio_spec(common, union)
    }
}

/// Unordered pairs among `n` items.
pub open spec fn pairs(n: nat) -> nat {
    (n * (n - 1) / 2) as nat
}

/// `n / d` scaled by `SCALE` and rounded half away from zero.
pub fn round_ratio(n: u128, d: u128) -> (r: u64)
    requires
        d > 0,
        n <= d,
        d <= 2 * u64::MAX,
    ensures
        r == round_ratio_spec(n as int, d as int),
        r <= SCALE,
{
    assert(2 * SCALE * n + d <= 2 * SCALE * d + d) by (nonlinear_arith)
        requires
            n <= d,
    ;
    assert(2 * SCALE * d + d <= 4002 * u64::MAX) by (nonlinear_arith)
        requires
            d <= 2 * u64::MAX,
    ;
    assert((2 * SCALE * n + d) / (2 * d) <= SCALE) by (nonlinear_arith)
        requires
            d > 0,
            2 * SCALE * n + d <= 2 * SCALE * d + d,
    ;
    assert(2 * (SCALE * n) == 2 * SCALE * n) by (nonlinear_arith);
    let num: u128 = 2 * (SCALE as u128) * n + d;
    let den: u128 = 2 * d;
    (num / den) as u64
}

/// `n / d` rounded half away from zero.
pub fn round_div(n: u128, d: u128) -> (r: u128)
    requires
        d > 0,
        d <= u64::MAX,
        n <= u64::MAX * SCALE,
    ensures
        r == round_div_spec(n as int, d as int),
{
    (2 * n + d) / (2 * d)
}

/// Number of pairs compared among `num` records: `num * (num - 1) / 2`, and 0 for fewer than two.
pub fn calculate_combinations(num: usize) -> (r: usize)
    requires
        num * (num - 1) / 2 <= usize::MAX,
    ensures
        r == pairs(num as nat),
        num <= 1 ==> r == 0,
{
    if num == 0 {
        0
    } else {
        assert(num * (num - 1) >= 0) by (nonlinear_arith);
        let prod: u128 = (num as u128) * ((num - 1) as u128);
        (prod / 2) as usize
    }
}

proof fn lemma_token_set_len(v: Seq<String>)
    requires
        is_token_set(v),
    ensures
        token_set(v).len() == v.len(),
        token_set(v).finite(),
{
    tokens_view(v).unique_seq_to_set();
    vstd::seq_lib::seq_to_set_is_finite(tokens_view(v));
}

/// Jaccard index of two token sets, in units of `1 / SCALE`.
pub fn get_similarity(arr1: &Vec<String>, arr2: &Vec<String>) -> (r: u64)
    requires
        is_token_set(arr1@),
        is_token_set(arr2@),
    ensures
        r == jaccard(token_set(arr1@), token_set(arr2@)),
        r <= SCALE,
        arr1@.len() == 0 && arr2@.len() == 0 ==> r == 0,
{
    broadcast use vstd::seq_lib::group_seq_properties, vstd::set::group_set_axioms;

    let ghost ta = tokens_view(arr1@);
    let ghost tb = tokens_view(arr2@);
    let ghost mut inter: Seq<Seq<char>> = Seq::empty();
    let mut common: usize = 0;
    let mut i: usize = 0;
    while i < arr1.len()
        invariant
            ta == tokens_view(arr1@),
            tb == tokens_view(arr2@),
            ta.no_duplicates(),
            0 <= i <= arr1@.len(),
            common == inter.len(),
            common <= i,
            inter.no_duplicates(),
            inter.to_set() == ta.take(i as int).to_set().intersect(tb.to_set()),
            forall|x: Seq<char>| inter.contains(x) ==> ta.take(i as int).contains(x),
        decreases arr1@.len() - i,
    {
        let mut found = false;
        let mut j: usize = 0;
        while j < arr2.len()
            invariant
                0 <= i < arr1@.len(),
                0 <= j <= arr2@.len(),
                tb == tokens_view(arr2@),
                ta == tokens_view(arr1@),
                found == tb.take(j as int).contains(ta[i as int]),
            decreases arr2@.len() - j,
        {
            assert(tb[j as int] == arr2@[j as int]@);
            assert(ta[i as int] == arr1@[i as int]@);
            let eq = arr1[i] == arr2[j];
            if eq {
                found = true;
            }
            proof {
                let v = ta[i as int];
                assert(tb.take(j as int + 1) =~= tb.take(j as int).push(tb[j as int]));
                if eq {
                    assert(tb.take(j as int + 1)[j as int] == v);
                } else if tb.take(j as int + 1).contains(v) {
                    let k = choose|k: int| 0 <= k < j + 1 && #[trigger] tb.take(j as int + 1)[k] == v;
                    assert(tb.take(j as int)[k] == v);
                }
            }
            j += 1;
        }
        assert(tb.take(arr2@.len() as int) =~= tb);
        assert(ta.take(i as int + 1) =~= ta.take(i as int).push(ta[i as int]));
        proof {
            ta.take(i as int).lemma_push_to_set_commute(ta[i as int]);
            assert(!ta.take(i as int).contains(ta[i as int]));
        }
        let ghost inter0 = inter;
        assert(forall|x: Seq<char>| inter0.contains(x) ==> ta.take(i as int).contains(x));
        if found {
            proof {
                let old_inter = inter;
                inter.lemma_push_to_set_commute(ta[i as int]);
                inter = inter.push(ta[i as int]);
                assert(!old_inter.contains(ta[i as int]));
                assert forall|p: int, q: int| 0 <= p < inter.len() && 0 <= q < inter.len() && p != q
                    implies inter[p] != inter[q] by {
                    if q == old_inter.len() {
                        assert(old_inter.contains(inter[p]));
                    } else if p == old_inter.len() {
                        assert(old_inter.contains(inter[q]));
                    }
                }
            }
            common += 1;
            assert(inter.to_set() =~= ta.take(i as int + 1).to_set().intersect(tb.to_set()));
        } else {
            assert(inter.to_set() =~= ta.take(i as int + 1).to_set().intersect(tb.to_set()));
        }
        assert forall|x: Seq<char>| inter.contains(x) implies ta.take(i as int + 1).contains(x) by {
            if x == ta[i as int] {
                assert(ta.take(i as int + 1)[i as int] == x);
            } else {
                let k = choose|k: int| 0 <= k < inter.len() && #[trigger] inter[k] == x;
                assert(inter0[k] == x);
                assert(inter0.contains(x));
                assert(ta.take(i as int).contains(x));
                let m = choose|m: int| 0 <= m < i && #[trigger] ta.take(i as int)[m] == x;
                assert(ta.take(i as int + 1)[m] == x);
            }
        }
        i += 1;
    }
    proof {
        assert(ta.take(arr1@.len() as int) =~= ta);
        lemma_token_set_len(arr1@);
        lemma_token_set_len(arr2@);
        inter.unique_seq_to_set();
        vstd::set_lib::lemma_len_intersect(token_set(arr1@), token_set(arr2@));
        vstd::set_lib::lemma_len_intersect(token_set(arr2@), token_set(arr1@));
        assert(token_set(arr2@).intersect(token_set(arr1@)) =~= token_set(arr1@).intersect(
            token_set(arr2@),
        ));
    }
    let union: u128 = (arr1.len() as u128) + (arr2.len() as u128) - (common as u128);
    if union == 0 {
        0
    } else {
        round_ratio(common as u128, union)
    }
}

/// Similarity does not depend on the order of its arguments, and a non-empty set is
/// fully similar to itself.
pub proof fn lemma_similarity_symmetric(a: Set<Seq<char>>, b: Set<Seq<char>>)
    requires
        a.finite(),
        b.finite(),
    ensures
        jaccard(a, b) == jaccard(b, a),
        a.len() > 0 ==> jaccard(a, a) == SCALE,
{
    assert(a.intersect(b) =~= b.intersect(a));
    assert(a.intersect(a) =~= a);
    if a.len() > 0 {
        let n = a.len() as int;
        assert(n + n - n == n);
        assert((2 * (SCALE * n) + n) / (2 * n) == SCALE) by (nonlinear_arith)
            requires
                n > 0,
        ;
    }
}

/// Two empty sets have similarity zero.
pub proof fn lemma_similarity_empty()
    ensures
        jaccard(Set::<Seq<char>>::empty(), Set::<Seq<char>>::empty()) == 0,
{
    assert(Set::<Seq<char>>::empty().intersect(Set::<Seq<char>>::empty()) =~= Set::empty());
}

} // verus!
