//! Declarative description of what the matchers emit: a pattern occurrence is
//! a half-open span of text indices, and the full output of a matcher run is
//! the sequence of all such spans ordered by end index.

use crate::borders::is_suffix_of;
use crate::borders::lemma_sigma_full;
use crate::borders::sigma;
use vstd::prelude::*;

verus! {

/// The pattern occurs in `text` ending (exclusively) at index `e`.
pub open spec fn match_end_at(text: Seq<char>, pat: Seq<char>, e: int) -> bool {
    &&& pat.len() <= e <= text.len()
    &&& text.subrange(e - pat.len(), e) == pat
}

/// All match end positions strictly below `i`, in increasing order.
pub open spec fn match_ends_up_to(text: Seq<char>, pat: Seq<char>, i: int) -> Seq<int>
    decreases i,
{
    if i <= 0 {
        Seq::empty()
    } else if match_end_at(text, pat, i - 1) {
        match_ends_up_to(text, pat, i - 1).push(i - 1)
    } else {
        match_ends_up_to(text, pat, i - 1)
    }
}

/// Every match end position in `text`, in increasing order.  End positions
/// range over `0 ..= text.len()`; `0` occurs only for the empty pattern.
pub open spec fn match_ends(text: Seq<char>, pat: Seq<char>) -> Seq<int> {
    match_ends_up_to(text, pat, text.len() as int + 1)
}

/// The spans with end position strictly below `i`, in emission order: each
/// match end paired with the corresponding start.
pub open spec fn spans_up_to(text: Seq<char>, pat: Seq<char>, i: int) -> Seq<(int, int)> {
    match_ends_up_to(text, pat, i).map_values(|e: int| (e - pat.len(), e))
}

/// The spans a matcher emits over its whole run: each match end paired with
/// the corresponding start, in increasing order of end index.
pub open spec fn spans_of(text: Seq<char>, pat: Seq<char>) -> Seq<(int, int)> {
    spans_up_to(text, pat, text.len() as int + 1)
}

/// Each element of `match_ends_up_to` is a match end below the cutoff, and
/// the sequence is strictly increasing (so no position is reported twice).
pub proof fn lemma_match_ends_up_to_sound(text: Seq<char>, pat: Seq<char>, i: int)
    ensures
        forall|k: int|
            0 <= k < match_ends_up_to(text, pat, i).len() ==> {
                &&& match_end_at(text, pat, #[trigger] match_ends_up_to(text, pat, i)[k])
                &&& match_ends_up_to(text, pat, i)[k] < i
            },
        forall|k1: int, k2: int|
            0 <= k1 < k2 < match_ends_up_to(text, pat, i).len()
                ==> match_ends_up_to(text, pat, i)[k1] < match_ends_up_to(text, pat, i)[k2],
    decreases i,
{
    if i > 0 {
        lemma_match_ends_up_to_sound(text, pat, i - 1);
        let s = match_ends_up_to(text, pat, i - 1);
        if match_end_at(text, pat, i - 1) {
            let t = match_ends_up_to(text, pat, i);
            assert forall|k: int| 0 <= k < t.len() implies {
                &&& match_end_at(text, pat, #[trigger] t[k])
                &&& t[k] < i
            } by {
                if k < t.len() - 1 {
                    assert(t[k] == s[k]);
                }
            }
            assert forall|k1: int, k2: int| 0 <= k1 < k2 < t.len() implies t[k1] < t[k2] by {
                if k2 == t.len() - 1 {
                    assert(t[k1] == s[k1] && s[k1] < i - 1);
                } else {
                    assert(t[k1] == s[k1] && t[k2] == s[k2]);
                }
            }
        }
    }
}

/// Every match end below the cutoff appears in `match_ends_up_to`.
pub proof fn lemma_match_ends_up_to_complete(text: Seq<char>, pat: Seq<char>, i: int, e: int)
    requires
        match_end_at(text, pat, e),
        e < i,
    ensures
        match_ends_up_to(text, pat, i).contains(e),
    decreases i,
{
    if e == i - 1 {
        assert(match_ends_up_to(text, pat, i)[match_ends_up_to(text, pat, i).len() - 1] == e);
    } else {
        lemma_match_ends_up_to_complete(text, pat, i - 1, e);
        let s = match_ends_up_to(text, pat, i - 1);
        let k = choose|k: int| 0 <= k < s.len() && s[k] == e;
        assert(match_ends_up_to(text, pat, i)[k] == e);
    }
}

/// A shorter cutoff yields a prefix of the same sequence.
pub proof fn lemma_match_ends_up_to_prefix(text: Seq<char>, pat: Seq<char>, i: int, j: int)
    requires
        i <= j,
    ensures
        match_ends_up_to(text, pat, i)
            == match_ends_up_to(text, pat, j).take(match_ends_up_to(text, pat, i).len() as int),
    decreases j - i,
{
    if i < j {
        lemma_match_ends_up_to_prefix(text, pat, i, j - 1);
        let sj = match_ends_up_to(text, pat, j);
        let sj1 = match_ends_up_to(text, pat, j - 1);
        let si = match_ends_up_to(text, pat, i);
        assert(si.len() <= sj1.len()) by {
            lemma_match_ends_up_to_len_monotone(text, pat, i, j - 1);
        }
        assert(sj.take(si.len() as int) =~= sj1.take(si.len() as int));
    } else {
        assert(match_ends_up_to(text, pat, i).take(match_ends_up_to(text, pat, i).len() as int)
            =~= match_ends_up_to(text, pat, i));
    }
}

/// A shorter cutoff yields at most as many match ends.
pub proof fn lemma_match_ends_up_to_len_monotone(text: Seq<char>, pat: Seq<char>, i: int, j: int)
    requires
        i <= j,
    ensures
        match_ends_up_to(text, pat, i).len() <= match_ends_up_to(text, pat, j).len(),
    decreases j - i,
{
    if i < j {
        lemma_match_ends_up_to_len_monotone(text, pat, i, j - 1);
    }
}

/// Raising the cutoff past a match end appends exactly that span.
pub proof fn lemma_spans_up_to_push(text: Seq<char>, pat: Seq<char>, e: int)
    requires
        match_end_at(text, pat, e),
    ensures
        spans_up_to(text, pat, e + 1) == spans_up_to(text, pat, e).push((e - pat.len(), e)),
{
    assert(match_ends_up_to(text, pat, e + 1) == match_ends_up_to(text, pat, e).push(e));
    assert(spans_up_to(text, pat, e + 1) =~= spans_up_to(text, pat, e).push((e - pat.len(), e)));
}

/// The matcher state reaches the pattern length after scanning `e` symbols
/// exactly when a match ends at `e`.  This ties the operational state both
/// matchers drive to the declarative span description.
pub proof fn lemma_sigma_is_match(text: Seq<char>, pat: Seq<char>, e: int)
    requires
        0 <= e <= text.len(),
    ensures
        sigma(pat, text.take(e)) == pat.len() <==> match_end_at(text, pat, e),
{
    lemma_sigma_full(pat, text.take(e));
    if pat.len() <= e {
        assert(text.take(e).subrange(e - pat.len(), e) =~= text.subrange(e - pat.len(), e));
        if is_suffix_of(pat, text.take(e)) {
            assert(text.subrange(e - pat.len(), e) == pat);
        }
        if text.subrange(e - pat.len(), e) == pat {
            assert(is_suffix_of(pat, text.take(e)));
        }
    }
}

/// The empty pattern matches at every position of the text.
pub proof fn lemma_match_end_empty(text: Seq<char>, pat: Seq<char>, e: int)
    requires
        pat.len() == 0,
        0 <= e <= text.len(),
    ensures
        match_end_at(text, pat, e),
{
    assert(text.subrange(e, e) =~= pat);
}

/// Every emitted span is as long as the pattern.
pub proof fn lemma_span_length(text: Seq<char>, pat: Seq<char>)
    ensures
        forall|k: int|
            0 <= k < spans_of(text, pat).len()
                ==> #[trigger] spans_of(text, pat)[k].1 - spans_of(text, pat)[k].0 == pat.len(),
{
}

/// Completeness and uniqueness: a start index is listed exactly when the
/// pattern occurs there, each occurrence exactly once, overlapping
/// occurrences included.
pub proof fn lemma_spans_complete(text: Seq<char>, pat: Seq<char>)
    ensures
        forall|s: int|
            0 <= s && s + pat.len() <= text.len() && text.subrange(s, s + pat.len()) == pat
                ==> #[trigger] spans_of(text, pat).contains((s, s + pat.len())),
        forall|k1: int, k2: int|
            0 <= k1 < k2 < spans_of(text, pat).len()
                ==> #[trigger] spans_of(text, pat)[k1].1 < #[trigger] spans_of(text, pat)[k2].1,
{
    let n = text.len() as int;
    let ends = match_ends(text, pat);
    lemma_match_ends_up_to_sound(text, pat, n + 1);
    assert forall|s: int|
        0 <= s && s + pat.len() <= text.len() && text.subrange(s, s + pat.len()) == pat implies #[trigger] spans_of(
        text,
        pat,
    ).contains((s, s + pat.len())) by {
        let e = s + pat.len() as int;
        lemma_match_ends_up_to_complete(text, pat, n + 1, e);
        let k = choose|k: int| 0 <= k < ends.len() && ends[k] == e;
        assert(spans_of(text, pat)[k] == (s, e));
    }
}

/// No false positives: the text slice under every emitted span is the
/// pattern itself.
pub proof fn lemma_spans_sound(text: Seq<char>, pat: Seq<char>)
    ensures
        forall|k: int|
            0 <= k < spans_of(text, pat).len() ==> {
                let sp = #[trigger] spans_of(text, pat)[k];
                &&& 0 <= sp.0
                &&& sp.1 == sp.0 + pat.len()
                &&& sp.1 <= text.len()
                &&& text.subrange(sp.0, sp.1) == pat
            },
{
    let n = text.len() as int;
    lemma_match_ends_up_to_sound(text, pat, n + 1);
}

/// The degenerate pattern convention, pinned down: the empty pattern yields
/// one zero-length match at every position, `text.len() + 1` in all.
pub proof fn lemma_spans_degenerate(text: Seq<char>, pat: Seq<char>)
    requires
        pat.len() == 0,
    ensures
        spans_of(text, pat).len() == text.len() + 1,
        forall|k: int| 0 <= k <= text.len() ==> #[trigger] spans_of(text, pat)[k] == (k, k),
{
    lemma_degenerate_up_to(text, pat, text.len() as int + 1);
}

proof fn lemma_degenerate_up_to(text: Seq<char>, pat: Seq<char>, i: int)
    requires
        pat.len() == 0,
        0 <= i <= text.len() + 1,
    ensures
        match_ends_up_to(text, pat, i).len() == i,
        forall|k: int| 0 <= k < i ==> #[trigger] match_ends_up_to(text, pat, i)[k] == k,
    decreases i,
{
    if i > 0 {
        lemma_match_end_empty(text, pat, i - 1);
        lemma_degenerate_up_to(text, pat, i - 1);
    }
}

} // verus!
