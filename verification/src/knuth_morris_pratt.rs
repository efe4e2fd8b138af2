//! String matching by the Knuth-Morris-Pratt algorithm.
//!
//! `make_transitions` precomputes the failure table of the pattern; the
//! matcher then drives a single state through the text, falling back through
//! the table on mismatches instead of consulting a full transition table.
//! After a full match the state resets to the failure value of the whole
//! pattern, which preserves every overlapping occurrence.  The emitted spans
//! are proved identical to the declarative description the automaton matcher
//! is verified against, so the two algorithms agree on every input.

use crate::borders::border_search;
use crate::borders::bounded_cand;
use crate::borders::failure;
use crate::borders::is_suffix_of;
use crate::borders::lemma_border_search;
use crate::borders::lemma_build_init_bound;
use crate::borders::lemma_cand_step_bound;
use crate::borders::lemma_chain_exit_hit;
use crate::borders::lemma_chain_exit_miss;
use crate::borders::lemma_chain_step;
use crate::borders::lemma_reset_bound;
use crate::borders::lemma_sigma_bounds;
use crate::borders::lemma_sigma_full;
use crate::borders::lemma_suffix_transitive;
use crate::borders::min_int;
use crate::borders::sigma;
use crate::spans::lemma_match_end_empty;
use crate::spans::lemma_match_ends_up_to_len_monotone;
use crate::spans::lemma_match_ends_up_to_prefix;
use crate::spans::lemma_sigma_is_match;
use crate::spans::lemma_spans_up_to_push;
use crate::spans::match_end_at;
use crate::spans::match_ends_up_to;
use crate::spans::spans_of;
use crate::spans::spans_up_to;
use vstd::prelude::*;

verus! {

/// A failure table for `pattern`: entry `q` (for `1 <= q <= m`) is the
/// length of the longest proper prefix of the pattern that is a suffix of
/// the `q`-length pattern prefix.  Entry `0` is never consulted.
spec fn table_wf(table: Seq<usize>, pat: Seq<char>) -> bool {
    &&& pat.len() >= 1 ==> {
        &&& table.len() == pat.len() + 1
        &&& forall|q: int| 1 <= q <= pat.len() ==> (#[trigger] table[q]) as int == failure(pat, q)
    }
}

/// Builds the failure table by the amortized-linear construction: the
/// candidate `k` carries over from the previous entry and falls back
/// through the table itself on mismatches.
#[verifier::loop_isolation(false)]
fn make_transitions(pattern: &[char]) -> (table: Vec<usize>)
    requires
        pattern@.len() < usize::MAX,
    ensures
        table_wf(table@, pattern@),
{
    let ghost pat = pattern@;
    let m = pattern.len();
    let mut transitions: Vec<usize> = Vec::new();
    transitions.push(0);
    if m == 0 {
        return transitions;
    }
    transitions.push(0);
    proof {
        assert(failure(pat, 1) == 0);
    }
    let mut k: usize = 0;
    let mut q: usize = 2;
    while q <= m
        invariant
            2 <= q <= m + 1,
            transitions@.len() == q,
            forall|q2: int| 1 <= q2 < q ==> (#[trigger] transitions@[q2]) as int == failure(
                pat,
                q2,
            ),
            k as int == failure(pat, q - 1),
            k < q - 1,
        decreases m + 1 - q,
    {
        let ghost x = pat.take(q - 1);
        let c = pattern[q - 1];
        proof {
            lemma_border_search(pat, x, q - 2);
            assert(x.push(c) =~= pat.take(q as int));
            lemma_build_init_bound(pat, q as int);
            assert(forall|j: int| #[trigger]
                bounded_cand(pat, x.push(c), q - 1, j) ==> j <= k + 1);
        }
        while k > 0 && pattern[k] != c
            invariant
                k < q - 1,
                is_suffix_of(pat.take(k as int), x),
                forall|j: int| #[trigger]
                    bounded_cand(pat, x.push(c), q - 1, j) ==> j <= k + 1,
            decreases k,
        {
            proof {
                lemma_chain_step(pat, x, c, k as int, q - 1);
            }
            k = transitions[k];
        }
        if pattern[k] == c {
            proof {
                lemma_chain_exit_hit(pat, x, c, k as int, q - 1);
            }
            k += 1;
        } else {
            proof {
                lemma_chain_exit_miss(pat, x, c, q - 1);
            }
        }
        proof {
            assert(k as int == border_search(pat, pat.take(q as int), q - 1));
            assert(k as int == failure(pat, q as int));
            lemma_border_search(pat, pat.take(q as int), q - 1);
        }
        transitions.push(k);
        q += 1;
    }
    transitions
}

/// A Knuth-Morris-Pratt matcher over borrowed alphabet, pattern, and text.
/// The failure table is built eagerly at construction; `iter` then yields
/// the match spans lazily.
#[derive(Debug)]
pub struct Matcher<'a> {
    alphabet: &'a [char],
    pattern: &'a [char],
    text: &'a [char],
    transitions: Vec<usize>,
}

/// A cursor over the remaining matches: pull `next` until it yields `None`.
pub struct MatcherIter<'a> {
    matcher: &'a Matcher<'a>,
    current_state: usize,
    current_index: usize,
    just_matched: Ghost<bool>,
}

impl<'a> Matcher<'a> {
    pub closed spec fn alphabet(&self) -> Seq<char> {
        self.alphabet@
    }

    pub closed spec fn pattern(&self) -> Seq<char> {
        self.pattern@
    }

    pub closed spec fn text(&self) -> Seq<char> {
        self.text@
    }

    /// The failure table is fully built for the stored pattern.
    pub closed spec fn wf(&self) -> bool {
        table_wf(self.transitions@, self.pattern@)
    }

    /// Builds the matcher, paying the failure-table construction up front.
    /// Every symbol of the pattern and of the text must belong to the
    /// alphabet; the pattern length bound only keeps the table length
    /// representable.
    pub fn new(alphabet: &'a [char], pattern: &'a [char], text: &'a [char]) -> (m: Matcher<'a>)
        requires
            pattern@.len() < usize::MAX,
            forall|i: int| 0 <= i < pattern@.len() ==> alphabet@.contains(#[trigger] pattern@[i]),
            forall|i: int| 0 <= i < text@.len() ==> alphabet@.contains(#[trigger] text@[i]),
        ensures
            m.wf(),
            m.alphabet() == alphabet@,
            m.pattern() == pattern@,
            m.text() == text@,
    {
        Matcher { alphabet, pattern, text, transitions: make_transitions(pattern) }
    }

    /// A fresh cursor at the start of the text with nothing emitted yet.
    pub fn iter(&self) -> (it: MatcherIter)
        requires
            self.wf(),
        ensures
            it.wf(),
            it.pattern() == self.pattern(),
            it.text() == self.text(),
            it.emitted() == Seq::<(int, int)>::empty(),
    {
        let it = MatcherIter {
            matcher: self,
            current_state: 0,
            current_index: 0,
            just_matched: Ghost(false),
        };
        proof {
            assert(it.emitted() =~= Seq::<(int, int)>::empty());
        }
        it
    }
}

impl<'a> MatcherIter<'a> {
    pub closed spec fn pattern(&self) -> Seq<char> {
        self.matcher.pattern()
    }

    pub closed spec fn text(&self) -> Seq<char> {
        self.matcher.text()
    }

    /// The scan frontier: every match end strictly below it has been
    /// reported.  `just_matched` records that the span ending at the current
    /// index was already emitted; for the empty pattern the state field is
    /// only such a marker (`1` after the final position's zero-length match
    /// is out).
    pub closed spec fn pos(&self) -> int {
        if self.pattern().len() == 0 {
            self.current_index + self.current_state
        } else if self.just_matched@ {
            self.current_index as int + 1
        } else {
            self.current_index as int
        }
    }

    /// The spans this cursor has yielded so far, in order.
    pub closed spec fn emitted(&self) -> Seq<(int, int)> {
        spans_up_to(self.text(), self.pattern(), self.pos())
    }

    /// The cursor has consumed the whole text and reported every span.
    pub closed spec fn exhausted(&self) -> bool {
        if self.pattern().len() == 0 {
            self.current_index == self.text().len() && self.current_state == 1
        } else {
            self.current_index == self.text().len()
        }
    }

    pub closed spec fn wf(&self) -> bool {
        &&& self.matcher.wf()
        &&& self.current_index <= self.text().len()
        &&& if self.pattern().len() == 0 {
            &&& self.current_state <= 1
            &&& (self.current_state == 1 ==> self.current_index == self.text().len())
        } else {
            &&& self.current_state < self.pattern().len()
            &&& if sigma(self.pattern(), self.text().take(self.current_index as int))
                == self.pattern().len() {
                &&& self.just_matched@
                &&& self.current_state as int == failure(
                    self.pattern(),
                    self.pattern().len() as int,
                )
            } else {
                &&& !self.just_matched@
                &&& self.current_state as int == sigma(
                    self.pattern(),
                    self.text().take(self.current_index as int),
                )
            }
        }
    }

    /// Yields the next match span, or `None` once the text is exhausted.
    /// Spans come in increasing order of end index; across a whole run the
    /// cursor emits exactly `spans_of(text, pattern)` — the same sequence
    /// the automaton matcher is verified to emit.
    #[verifier::loop_isolation(false)]
    pub fn next(&mut self) -> (r: Option<(usize, usize)>)
        requires
            old(self).wf(),
        ensures
            final(self).wf(),
            final(self).pattern() == old(self).pattern(),
            final(self).text() == old(self).text(),
            spans_of(final(self).text(), final(self).pattern()).take(
                final(self).emitted().len() as int,
            ) == final(self).emitted(),
            match r {
                Some(sp) => {
                    &&& final(self).emitted() == old(self).emitted().push(
                        (sp.0 as int, sp.1 as int),
                    )
                    &&& sp.1 as int - sp.0 as int == final(self).pattern().len()
                    &&& match_end_at(final(self).text(), final(self).pattern(), sp.1 as int)
                },
                None => {
                    &&& final(self).emitted() == old(self).emitted()
                    &&& final(self).emitted() == spans_of(final(self).text(), final(self).pattern())
                    &&& final(self).exhausted()
                },
            },
    {
        let ghost init = *self;
        let ghost pat = self.pattern();
        let ghost txt = self.text();
        let ghost ends0 = match_ends_up_to(txt, pat, init.pos());
        let n = self.matcher.text.len();
        let m = self.matcher.pattern.len();
        if m == 0 {
            let r = self.next_empty_pattern();
            proof {
                self.lemma_prefix_of_spans();
            }
            return r;
        }
        while self.current_index < n
            invariant
                self.matcher == init.matcher,
                self.wf(),
                match_ends_up_to(txt, pat, self.pos()) == ends0,
            decreases n - self.current_index,
        {
            let ghost i = self.current_index as int;
            let ghost pos_top = self.pos();
            let ghost x = txt.take(i);
            let c = self.matcher.text[self.current_index];
            let ghost bound = min_int(i + 1, m as int);
            proof {
                lemma_sigma_bounds(pat, x);
                lemma_border_search(pat, pat.take(m as int), m as int - 1);
                if self.just_matched@ {
                    // The state was reset after a full match; no candidate
                    // for the extended scan is lost.
                    lemma_sigma_full(pat, x);
                    assert(pat.take(m as int) =~= pat);
                    lemma_suffix_transitive(
                        pat.take(self.current_state as int),
                        pat.take(m as int),
                        x,
                    );
                    lemma_reset_bound(pat, x, c);
                } else {
                    lemma_cand_step_bound(pat, x, c);
                }
                assert(is_suffix_of(pat.take(self.current_state as int), x));
                assert(forall|j: int| #[trigger]
                    bounded_cand(pat, x.push(c), bound, j) ==> j <= self.current_state + 1);
            }
            while self.current_state > 0 && self.matcher.pattern[self.current_state] != c
                invariant
                    self.matcher == init.matcher,
                    self.current_state < m,
                    self.current_index == i,
                    is_suffix_of(pat.take(self.current_state as int), x),
                    forall|j: int| #[trigger]
                        bounded_cand(pat, x.push(c), bound, j) ==> j <= self.current_state + 1,
                decreases self.current_state,
            {
                proof {
                    lemma_chain_step(pat, x, c, self.current_state as int, bound);
                }
                self.current_state = self.matcher.transitions[self.current_state];
            }
            if self.matcher.pattern[self.current_state] == c {
                proof {
                    lemma_chain_exit_hit(pat, x, c, self.current_state as int, bound);
                }
                self.current_state += 1;
            } else {
                proof {
                    lemma_chain_exit_miss(pat, x, c, bound);
                }
            }
            proof {
                assert(x.push(c) =~= txt.take(i + 1));
                assert(self.current_state as int == sigma(pat, txt.take(i + 1)));
                lemma_sigma_is_match(txt, pat, i);
                lemma_sigma_is_match(txt, pat, i + 1);
                // Nothing was skipped: either the span ending at i was
                // already counted, or there is none.
                assert(match_ends_up_to(txt, pat, i + 1) == ends0) by {
                    if pos_top == i {
                        assert(!match_end_at(txt, pat, i));
                        assert(match_ends_up_to(txt, pat, i + 1) == match_ends_up_to(txt, pat, i));
                    }
                }
            }
            self.current_index += 1;
            self.just_matched = Ghost(false);
            if self.current_state == m {
                proof {
                    lemma_sigma_full(pat, txt.take(i + 1));
                    assert(pat.take(m as int) =~= pat);
                    assert(match_end_at(txt, pat, i + 1));
                    assert(match_ends_up_to(txt, pat, i + 2) == match_ends_up_to(
                        txt,
                        pat,
                        i + 1,
                    ).push(i + 1));
                }
                self.current_state = self.matcher.transitions[m];
                self.just_matched = Ghost(true);
                proof {
                    assert(self.pos() == i + 2);
                    lemma_spans_up_to_push(txt, pat, i + 1);
                    assert(init.emitted() == spans_up_to(txt, pat, i + 1));
                    assert(self.emitted() == init.emitted().push((i + 1 - m as int, i + 1)));
                    self.lemma_prefix_of_spans();
                }
                return Some((self.current_index - m, self.current_index));
            }
        }
        proof {
            lemma_sigma_is_match(txt, pat, n as int);
            assert(match_ends_up_to(txt, pat, n as int + 1) == match_ends_up_to(
                txt,
                pat,
                self.pos(),
            )) by {
                if self.pos() == n as int {
                    assert(!match_end_at(txt, pat, n as int));
                }
            }
            self.lemma_prefix_of_spans();
        }
        None
    }

    /// The degenerate case: a zero-length pattern matches once at every
    /// position `0 ..= text.len()`, so the run yields `text.len() + 1`
    /// zero-length spans.
    fn next_empty_pattern(&mut self) -> (r: Option<(usize, usize)>)
        requires
            old(self).wf(),
            old(self).pattern().len() == 0,
        ensures
            final(self).wf(),
            final(self).pattern() == old(self).pattern(),
            final(self).text() == old(self).text(),
            match r {
                Some(sp) => {
                    &&& final(self).emitted() == old(self).emitted().push(
                        (sp.0 as int, sp.1 as int),
                    )
                    &&& sp.1 as int - sp.0 as int == final(self).pattern().len()
                    &&& match_end_at(final(self).text(), final(self).pattern(), sp.1 as int)
                },
                None => {
                    &&& final(self).emitted() == old(self).emitted()
                    &&& final(self).emitted() == spans_of(final(self).text(), final(self).pattern())
                    &&& final(self).exhausted()
                },
            },
    {
        let ghost init = *self;
        let ghost pat = self.pattern();
        let ghost txt = self.text();
        if self.current_state == 0 {
            let i = self.current_index;
            proof {
                lemma_match_end_empty(txt, pat, i as int);
            }
            if i < self.matcher.text.len() {
                self.current_index = i + 1;
            } else {
                self.current_state = 1;
            }
            proof {
                assert(match_ends_up_to(txt, pat, i as int + 1) == match_ends_up_to(
                    txt,
                    pat,
                    i as int,
                ).push(i as int));
                assert(self.emitted() =~= init.emitted().push((i as int, i as int)));
            }
            Some((i, i))
        } else {
            None
        }
    }

    /// An exhausted cursor has emitted the full span sequence.
    pub proof fn lemma_exhausted_emits_all(&self)
        requires
            self.wf(),
            self.exhausted(),
        ensures
            self.emitted() == spans_of(self.text(), self.pattern()),
    {
        let txt = self.text();
        let pat = self.pattern();
        let n = txt.len() as int;
        if pat.len() == 0 {
            assert(self.pos() == n + 1);
        } else {
            lemma_sigma_is_match(txt, pat, n);
            assert(match_ends_up_to(txt, pat, n + 1) == match_ends_up_to(txt, pat, self.pos()))
                by {
                if self.pos() == n {
                    assert(!match_end_at(txt, pat, n));
                }
            }
        }
    }

    /// What has been emitted is always a prefix of the full span sequence.
    proof fn lemma_prefix_of_spans(&self)
        requires
            self.wf(),
        ensures
            spans_of(self.text(), self.pattern()).take(self.emitted().len() as int)
                == self.emitted(),
    {
        let txt = self.text();
        let pat = self.pattern();
        let full = txt.len() as int + 1;
        assert(self.pos() <= full);
        lemma_match_ends_up_to_prefix(txt, pat, self.pos(), full);
        lemma_match_ends_up_to_len_monotone(txt, pat, self.pos(), full);
        let ends = match_ends_up_to(txt, pat, self.pos());
        assert(spans_of(txt, pat).take(ends.len() as int) =~= self.emitted());
    }
}

} // verus!
