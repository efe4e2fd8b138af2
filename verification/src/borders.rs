//! Overlap theory shared by the automaton and the Knuth-Morris-Pratt matcher.
//!
//! Both algorithms revolve around one quantity: the length of the longest
//! prefix of the pattern that is a suffix of some string.  `border_search`
//! defines that quantity by descending search, exactly as the automaton
//! builder computes it; `sigma` (the matcher state), `delta` (the automaton
//! transition), and `failure` (the KMP failure function) are instances of it.

use vstd::prelude::*;

verus! {

/// `s` is a suffix of `x`.
pub open spec fn is_suffix_of(s: Seq<char>, x: Seq<char>) -> bool {
    &&& s.len() <= x.len()
    &&& s == x.subrange(x.len() - s.len(), x.len() as int)
}

/// The largest `k` in `[0, hi]` such that the `k`-length prefix of `pat` is a
/// suffix of `x`, found by descending from `hi`.  `k == 0` always qualifies,
/// since the empty sequence is a suffix of everything.
pub open spec fn border_search(pat: Seq<char>, x: Seq<char>, hi: int) -> int
    recommends
        0 <= hi <= pat.len(),
    decreases hi,
{
    if hi <= 0 {
        0
    } else if is_suffix_of(pat.take(hi), x) {
        hi
    } else {
        border_search(pat, x, hi - 1)
    }
}

/// Length of the longest suffix of `x` that is a prefix of `pat`, capped at
/// the pattern length: the state both matchers track while scanning.
pub open spec fn sigma(pat: Seq<char>, x: Seq<char>) -> int {
    border_search(pat, x, min_int(x.len() as int, pat.len() as int))
}

/// The automaton transition: the state reached from state `q` on symbol `a`.
pub open spec fn delta(pat: Seq<char>, q: int, a: char) -> int
    recommends
        0 <= q <= pat.len(),
{
    border_search(pat, pat.take(q).push(a), min_int(q + 1, pat.len() as int))
}

/// The KMP failure function: the length of the longest proper prefix of
/// `pat` that is a suffix of the `q`-length prefix of `pat`.
pub open spec fn failure(pat: Seq<char>, q: int) -> int
    recommends
        1 <= q <= pat.len(),
{
    border_search(pat, pat.take(q), q - 1)
}

pub open spec fn min_int(a: int, b: int) -> int {
    if a <= b {
        a
    } else {
        b
    }
}

pub proof fn lemma_empty_is_suffix(x: Seq<char>)
    ensures
        is_suffix_of(Seq::empty(), x),
{
    assert(Seq::<char>::empty() =~= x.subrange(x.len() as int, x.len() as int));
}

/// What the descending search returns: a valid border length no larger than
/// `hi`, and the largest one.
pub proof fn lemma_border_search(pat: Seq<char>, x: Seq<char>, hi: int)
    requires
        0 <= hi <= pat.len(),
    ensures
        0 <= border_search(pat, x, hi) <= hi,
        is_suffix_of(pat.take(border_search(pat, x, hi)), x),
        forall|c: int| border_search(pat, x, hi) < c <= hi ==> !is_suffix_of(pat.take(c), x),
    decreases hi,
{
    if hi <= 0 {
        assert(pat.take(0) =~= Seq::empty());
        lemma_empty_is_suffix(x);
    } else if is_suffix_of(pat.take(hi), x) {
    } else {
        lemma_border_search(pat, x, hi - 1);
    }
}

/// A suffix of a suffix: if two prefixes of the pattern are both suffixes of
/// `x`, the shorter is a suffix of the longer.
pub proof fn lemma_suffix_of_suffix(s1: Seq<char>, s2: Seq<char>, x: Seq<char>)
    requires
        is_suffix_of(s1, x),
        is_suffix_of(s2, x),
        s1.len() <= s2.len(),
    ensures
        is_suffix_of(s1, s2),
{
    assert(s1 =~= s2.subrange(s2.len() - s1.len(), s2.len() as int)) by {
        assert forall|j: int| 0 <= j < s1.len() implies s1[j] == s2[s2.len() - s1.len() + j] by {
            assert(s1[j] == x[x.len() - s1.len() + j]);
            assert(s2[s2.len() - s1.len() + j] == x[x.len() - s1.len() + j]);
        }
    }
}

pub proof fn lemma_suffix_transitive(s: Seq<char>, y: Seq<char>, x: Seq<char>)
    requires
        is_suffix_of(s, y),
        is_suffix_of(y, x),
    ensures
        is_suffix_of(s, x),
{
    assert(s =~= x.subrange(x.len() - s.len(), x.len() as int)) by {
        assert forall|j: int| 0 <= j < s.len() implies s[j] == x[x.len() - s.len() + j] by {
            assert(s[j] == y[y.len() - s.len() + j]);
            assert(y[y.len() - s.len() + j] == x[x.len() - s.len() + j]);
        }
    }
}

/// Extending a suffix by one matching symbol keeps it a suffix.
pub proof fn lemma_suffix_push(s: Seq<char>, x: Seq<char>, a: char)
    requires
        is_suffix_of(s, x),
    ensures
        is_suffix_of(s.push(a), x.push(a)),
{
    assert(s.push(a) =~= x.push(a).subrange(x.len() - s.len(), x.len() as int + 1));
}

/// Peeling the last symbol off a non-empty suffix of `x.push(a)`: the last
/// symbol is `a` and the rest is a suffix of `x`.
pub proof fn lemma_suffix_unpush(s: Seq<char>, x: Seq<char>, a: char)
    requires
        is_suffix_of(s, x.push(a)),
        s.len() >= 1,
    ensures
        s.last() == a,
        is_suffix_of(s.drop_last(), x),
{
    assert(s.last() == x.push(a)[x.len() as int]);
    assert(s.drop_last() =~= x.subrange(x.len() - (s.len() - 1), x.len() as int));
}

/// The candidate bound behind every inner loop of KMP: a prefix of `pat` of
/// length `j <= bound` that is a suffix of `y`.
pub open spec fn bounded_cand(pat: Seq<char>, y: Seq<char>, bound: int, j: int) -> bool {
    &&& 0 <= j <= bound
    &&& is_suffix_of(pat.take(j), y)
}

/// The matcher state is a length capped by both the scanned text and the
/// pattern.
pub proof fn lemma_sigma_bounds(pat: Seq<char>, x: Seq<char>)
    ensures
        0 <= sigma(pat, x) <= pat.len(),
        sigma(pat, x) <= x.len(),
        is_suffix_of(pat.take(sigma(pat, x)), x),
{
    lemma_border_search(pat, x, min_int(x.len() as int, pat.len() as int));
}

/// The transition theorem: scanning one more symbol takes the matcher state
/// `sigma` along the automaton transition `delta`.
pub proof fn lemma_sigma_step(pat: Seq<char>, x: Seq<char>, a: char)
    ensures
        sigma(pat, x.push(a)) == delta(pat, sigma(pat, x), a),
{
    let m = pat.len() as int;
    let hi_s = min_int(x.len() as int, m);
    let s = sigma(pat, x);
    let hi_d = min_int(s + 1, m);
    let d = delta(pat, s, a);
    let hi_2 = min_int(x.len() as int + 1, m);
    let s2 = sigma(pat, x.push(a));
    lemma_border_search(pat, x, hi_s);
    lemma_border_search(pat, pat.take(s).push(a), hi_d);
    lemma_border_search(pat, x.push(a), hi_2);

    // d is a candidate for the longer scan, so s2 >= d.
    lemma_suffix_push(pat.take(s), x, a);
    lemma_suffix_transitive(pat.take(d), pat.take(s).push(a), x.push(a));
    assert(d <= hi_2);
    assert(s2 >= d);

    // s2 is a candidate for the transition search, so d >= s2.
    if s2 >= 1 {
        lemma_suffix_unpush(pat.take(s2), x, a);
        assert(pat.take(s2).drop_last() =~= pat.take(s2 - 1));
        assert(is_suffix_of(pat.take(s2 - 1), x));
        assert(s2 - 1 <= hi_s);
        assert(s2 - 1 <= s);
        lemma_suffix_of_suffix(pat.take(s2 - 1), pat.take(s), x);
        lemma_suffix_push(pat.take(s2 - 1), pat.take(s), a);
        assert(pat.take(s2).last() == pat[s2 - 1]);
        assert(pat.take(s2 - 1).push(a) =~= pat.take(s2));
        assert(is_suffix_of(pat.take(s2), pat.take(s).push(a)));
        assert(s2 <= hi_d);
        assert(d >= s2);
    }
}

/// The matcher state hits the pattern length exactly when the whole pattern
/// is a suffix of the scanned text.
pub proof fn lemma_sigma_full(pat: Seq<char>, x: Seq<char>)
    ensures
        sigma(pat, x) == pat.len() <==> (pat.len() <= x.len() && is_suffix_of(pat, x)),
{
    let m = pat.len() as int;
    let hi = min_int(x.len() as int, m);
    lemma_border_search(pat, x, hi);
    assert(pat.take(m) =~= pat);
    if pat.len() <= x.len() && is_suffix_of(pat, x) {
        assert(sigma(pat, x) == m) by {
            if sigma(pat, x) < m {
                assert(!is_suffix_of(pat.take(m), x));
            }
        }
    }
}

/// Any non-empty candidate after one more symbol shrinks by one into a
/// candidate for the previous scan, so candidates never exceed `sigma + 1`.
pub proof fn lemma_cand_step_bound(pat: Seq<char>, x: Seq<char>, a: char)
    ensures
        forall|j: int|
            1 <= j <= pat.len() && is_suffix_of(#[trigger] pat.take(j), x.push(a))
                ==> j - 1 <= sigma(pat, x) && is_suffix_of(pat.take(j - 1), x) && pat[j - 1] == a,
{
    let m = pat.len() as int;
    let hi_s = min_int(x.len() as int, m);
    lemma_border_search(pat, x, hi_s);
    assert forall|j: int|
        1 <= j <= pat.len() && is_suffix_of(#[trigger] pat.take(j), x.push(a)) implies j - 1
        <= sigma(pat, x) && is_suffix_of(pat.take(j - 1), x) && pat[j - 1] == a by {
        lemma_suffix_unpush(pat.take(j), x, a);
        assert(pat.take(j).drop_last() =~= pat.take(j - 1));
        assert(pat.take(j).last() == pat[j - 1]);
        assert(j - 1 <= hi_s);
        if j - 1 > sigma(pat, x) {
            assert(!is_suffix_of(pat.take(j - 1), x));
        }
    }
}

/// After a full match, candidates for the next scan are bounded by the
/// failure value of the whole pattern plus one: restarting the KMP state at
/// `failure(pat, m)` loses no match.
pub proof fn lemma_reset_bound(pat: Seq<char>, x: Seq<char>, a: char)
    requires
        pat.len() >= 1,
        sigma(pat, x) == pat.len(),
    ensures
        forall|j: int|
            1 <= j <= pat.len() && is_suffix_of(#[trigger] pat.take(j), x.push(a))
                ==> j - 1 <= failure(pat, pat.len() as int),
{
    let m = pat.len() as int;
    lemma_border_search(pat, x, min_int(x.len() as int, m));
    lemma_border_search(pat, pat.take(m), m - 1);
    lemma_cand_step_bound(pat, x, a);
    assert forall|j: int|
        1 <= j <= pat.len() && is_suffix_of(#[trigger] pat.take(j), x.push(a)) implies j - 1
        <= failure(pat, m) by {
        assert(is_suffix_of(pat.take(j - 1), x));
        assert(is_suffix_of(pat.take(m), x));
        lemma_suffix_of_suffix(pat.take(j - 1), pat.take(m), x);
        if j - 1 > failure(pat, m) {
            assert(!is_suffix_of(pat.take(j - 1), pat.take(m)));
        }
    }
}

/// Entering one round of the failure-table construction: every proper
/// border of the `q`-length prefix shrinks by one into a border counted by
/// `failure(pat, q - 1)`.
pub proof fn lemma_build_init_bound(pat: Seq<char>, q: int)
    requires
        2 <= q <= pat.len(),
    ensures
        forall|j: int|
            1 <= j <= q - 1 && is_suffix_of(#[trigger] pat.take(j), pat.take(q)) ==> j - 1
                <= failure(pat, q - 1),
{
    let x = pat.take(q - 1);
    let c = pat[q - 1];
    lemma_border_search(pat, x, q - 2);
    assert(x.push(c) =~= pat.take(q));
    lemma_cand_step_bound(pat, x, c);
    assert forall|j: int|
        1 <= j <= q - 1 && is_suffix_of(#[trigger] pat.take(j), pat.take(q)) implies j - 1
        <= failure(pat, q - 1) by {
        assert(is_suffix_of(pat.take(j), x.push(c)));
        assert(is_suffix_of(pat.take(j - 1), x));
        if j - 1 > failure(pat, q - 1) {
            assert(!is_suffix_of(pat.take(j - 1), x));
        }
    }
}

/// One step down the failure chain: on a mismatch at state `k`, falling back
/// to `failure(pat, k)` keeps every candidate reachable.
pub proof fn lemma_chain_step(pat: Seq<char>, x: Seq<char>, a: char, k: int, bound: int)
    requires
        1 <= k < pat.len(),
        is_suffix_of(pat.take(k), x),
        pat[k] != a,
        0 <= bound <= pat.len(),
        forall|j: int| bounded_cand(pat, x.push(a), bound, j) ==> j <= k + 1,
    ensures
        0 <= failure(pat, k) < k,
        is_suffix_of(pat.take(failure(pat, k)), x),
        forall|j: int| bounded_cand(pat, x.push(a), bound, j) ==> j <= failure(pat, k) + 1,
{
    let f = failure(pat, k);
    lemma_border_search(pat, pat.take(k), k - 1);
    lemma_suffix_transitive(pat.take(f), pat.take(k), x);
    lemma_cand_step_bound(pat, x, a);
    assert forall|j: int| bounded_cand(pat, x.push(a), bound, j) implies j <= f + 1 by {
        if j >= 1 {
            assert(pat[j - 1] == a);
            assert(j != k + 1);
            assert(is_suffix_of(pat.take(j - 1), x));
            lemma_suffix_of_suffix(pat.take(j - 1), pat.take(k), x);
            if j - 1 > f {
                assert(!is_suffix_of(pat.take(j - 1), pat.take(k)));
            }
        }
    }
}

/// Exit of the failure chain on a symbol match: the new state is `k + 1`,
/// and it is exactly the border search value for the extended scan.
pub proof fn lemma_chain_exit_hit(pat: Seq<char>, x: Seq<char>, a: char, k: int, bound: int)
    requires
        0 <= k < pat.len(),
        is_suffix_of(pat.take(k), x),
        pat[k] == a,
        k + 1 <= bound <= pat.len(),
        forall|j: int| bounded_cand(pat, x.push(a), bound, j) ==> j <= k + 1,
    ensures
        border_search(pat, x.push(a), bound) == k + 1,
{
    let r = border_search(pat, x.push(a), bound);
    lemma_border_search(pat, x.push(a), bound);
    lemma_suffix_push(pat.take(k), x, a);
    assert(pat.take(k).push(a) =~= pat.take(k + 1));
    assert(is_suffix_of(pat.take(k + 1), x.push(a)));
    assert(r >= k + 1) by {
        if r < k + 1 {
            assert(!is_suffix_of(pat.take(k + 1), x.push(a)));
        }
    }
    assert(bounded_cand(pat, x.push(a), bound, r));
}

/// Exit of the failure chain at state zero with no symbol match: the new
/// state is zero.
pub proof fn lemma_chain_exit_miss(pat: Seq<char>, x: Seq<char>, a: char, bound: int)
    requires
        pat.len() >= 1,
        pat[0] != a,
        0 <= bound <= pat.len(),
        forall|j: int| bounded_cand(pat, x.push(a), bound, j) ==> j <= 1,
    ensures
        border_search(pat, x.push(a), bound) == 0,
{
    let r = border_search(pat, x.push(a), bound);
    lemma_border_search(pat, x.push(a), bound);
    assert(bounded_cand(pat, x.push(a), bound, r));
    if r == 1 {
        lemma_suffix_unpush(pat.take(1), x, a);
        assert(pat.take(1).last() == pat[0]);
    }
}

} // verus!
