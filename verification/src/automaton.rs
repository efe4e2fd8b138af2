//! String matching by a deterministic finite automaton.
//!
//! `create_automaton` precomputes the full transition table `delta` over all
//! states `0 ..= m` and all alphabet symbols; the matcher then drives a
//! single state through the text, one table lookup per symbol, and reports a
//! span whenever the accepting state `m` is reached.  The state is never
//! reset after a match: the table already encodes the overlap structure, so
//! overlapping occurrences are found too.

use crate::borders::border_search;
use crate::borders::delta;
use crate::borders::is_suffix_of;
use crate::borders::lemma_border_search;
use crate::borders::lemma_empty_is_suffix;
use crate::borders::lemma_sigma_bounds;
use crate::borders::lemma_sigma_full;
use crate::borders::lemma_sigma_step;
use crate::borders::min_int;
use crate::borders::sigma;
use crate::spans::lemma_match_end_empty;
use crate::spans::lemma_match_ends_up_to_len_monotone;
use crate::spans::lemma_match_ends_up_to_prefix;
use crate::spans::lemma_sigma_is_match;
use crate::spans::lemma_spans_up_to_push;
use crate::spans::match_end_at;
use crate::spans::match_ends_up_to;
use crate::spans::spans_of;
use crate::spans::spans_up_to;
use vstd::prelude::*;

verus! {

#[derive(Debug, Clone)]
struct Automaton<'a> {
    alphabet: &'a [char],
    pattern: &'a [char],
    transitions: Vec<Vec<usize>>,
}

impl<'a> Automaton<'a> {
    /// The transition table is total over `[0, m] x alphabet` and each entry
    /// is the `delta` value of its state and symbol.
    spec fn wf(&self) -> bool {
        &&& self.transitions@.len() == self.pattern@.len() + 1
        &&& forall|q: int|
            0 <= q < self.transitions@.len() ==> (#[trigger] self.transitions@[q])@.len()
                == self.alphabet@.len()
        &&& forall|q: int, j: int|
            0 <= q < self.transitions@.len() && 0 <= j < self.alphabet@.len()
                ==> (#[trigger] self.transitions@[q]@[j]) as int == delta(
                self.pattern@,
                q,
                self.alphabet@[j],
            )
    }

    fn new(alphabet: &'a [char], pattern: &'a [char]) -> (a: Automaton<'a>)
        ensures
            a.alphabet@ == alphabet@,
            a.pattern@ == pattern@,
            a.transitions@.len() == 0,
    {
        Automaton { alphabet, pattern, transitions: Vec::new() }
    }

    /// One table lookup: the state reached from `current_state` on symbol
    /// `a`, found by locating `a`'s column in the alphabet.
    fn accept(&self, current_state: usize, a: char) -> (r: usize)
        requires
            self.wf(),
            current_state <= self.pattern@.len(),
            self.alphabet@.contains(a),
        ensures
            r as int == delta(self.pattern@, current_state as int, a),
    {
        let mut j: usize = 0;
        while j < self.alphabet.len()
            invariant
                self.wf(),
                current_state <= self.pattern@.len(),
                self.alphabet@.contains(a),
                j <= self.alphabet@.len(),
                forall|t: int| 0 <= t < j ==> self.alphabet@[t] != a,
            decreases self.alphabet@.len() - j,
        {
            if self.alphabet[j] == a {
                return self.transitions[current_state][j];
            }
            j += 1;
        }
        proof {
            let t = choose|t: int| 0 <= t < self.alphabet@.len() && self.alphabet@[t] == a;
            assert(false);
        }
        0
    }

    fn is_accepting(&self, current_state: usize) -> (r: bool)
        ensures
            r == (current_state == self.pattern@.len()),
    {
        current_state == self.pattern.len()
    }
}

/// Does the `k`-length prefix of `pattern` end the string formed by the
/// `q`-length prefix of `pattern` followed by `a`?  This is the suffix test
/// the table construction runs while it searches downward for the largest
/// such `k`.
fn suffix_matches(pattern: &[char], q: usize, a: char, k: usize) -> (r: bool)
    requires
        q < usize::MAX,
        q <= pattern@.len(),
        k <= q + 1,
        k <= pattern@.len(),
    ensures
        r == is_suffix_of(pattern@.take(k as int), pattern@.take(q as int).push(a)),
{
    let ghost y = pattern@.take(q as int).push(a);
    if k == 0 {
        proof {
            assert(pattern@.take(0) =~= Seq::empty());
            lemma_empty_is_suffix(y);
        }
        return true;
    }
    // The candidate suffix of y = pattern[..q] + [a] starts at index q+1-k.
    let start = q + 1 - k;
    let mut t: usize = 0;
    while t < k
        invariant
            q <= pattern@.len(),
            1 <= k <= q + 1,
            k <= pattern@.len(),
            start == q + 1 - k,
            t <= k,
            y == pattern@.take(q as int).push(a),
            forall|u: int| 0 <= u < t ==> pattern@[u] == y[start + u],
        decreases k - t,
    {
        let yc = if start + t < q {
            pattern[start + t]
        } else {
            a
        };
        proof {
            assert(y[start + t] == yc);
        }
        if pattern[t] != yc {
            proof {
                assert(!is_suffix_of(pattern@.take(k as int), y)) by {
                    if is_suffix_of(pattern@.take(k as int), y) {
                        assert(pattern@.take(k as int)[t as int] == y.subrange(
                            start as int,
                            q + 1,
                        )[t as int]);
                    }
                }
            }
            return false;
        }
        t += 1;
    }
    proof {
        assert(pattern@.take(k as int) =~= y.subrange(start as int, q + 1));
    }
    true
}

/// Builds the full transition table for `pattern` over `alphabet`: for every
/// state and symbol, the largest `k` such that the `k`-length pattern prefix
/// ends the extended scan, found by descending search exactly as
/// `border_search` specifies.
fn create_automaton<'a>(alphabet: &'a [char], pattern: &'a [char]) -> (aut: Automaton<'a>)
    requires
        pattern@.len() < usize::MAX,
    ensures
        aut.wf(),
        aut.alphabet@ == alphabet@,
        aut.pattern@ == pattern@,
{
    let mut automaton = Automaton::new(alphabet, pattern);
    let m = pattern.len();
    let mut q: usize = 0;
    while q <= m
        invariant
            m == pattern@.len(),
            m < usize::MAX,
            q <= m + 1,
            automaton.alphabet@ == alphabet@,
            automaton.pattern@ == pattern@,
            automaton.transitions@.len() == q,
            forall|q2: int|
                0 <= q2 < q ==> (#[trigger] automaton.transitions@[q2])@.len() == alphabet@.len(),
            forall|q2: int, j: int|
                0 <= q2 < q && 0 <= j < alphabet@.len() ==> (#[trigger] automaton.transitions@[q2]@[j]) as int
                    == delta(pattern@, q2, alphabet@[j]),
        decreases m + 1 - q,
    {
        let mut row: Vec<usize> = Vec::new();
        let mut j: usize = 0;
        while j < alphabet.len()
            invariant
                m == pattern@.len(),
                q <= m < usize::MAX,
                j <= alphabet@.len(),
                row@.len() == j,
                forall|j2: int|
                    0 <= j2 < j ==> (#[trigger] row@[j2]) as int == delta(
                        pattern@,
                        q as int,
                        alphabet@[j2],
                    ),
            decreases alphabet@.len() - j,
        {
            let a = alphabet[j];
            let ghost y = pattern@.take(q as int).push(a);
            let hi = if q + 1 <= m {
                q + 1
            } else {
                m
            };
            proof {
                assert(hi as int == min_int(q as int + 1, m as int));
            }
            let mut k = hi;
            loop
                invariant
                    m == pattern@.len(),
                    q <= m < usize::MAX,
                    hi as int == min_int(q as int + 1, m as int),
                    k <= hi,
                    y == pattern@.take(q as int).push(a),
                    border_search(pattern@, y, hi as int) == border_search(pattern@, y, k as int),
                ensures
                    k <= hi,
                    is_suffix_of(pattern@.take(k as int), y),
                    border_search(pattern@, y, hi as int) == border_search(pattern@, y, k as int),
                decreases k,
            {
                if suffix_matches(pattern, q, a, k) {
                    break ;
                }
                proof {
                    assert(k > 0) by {
                        if k == 0 {
                            assert(pattern@.take(0) =~= Seq::empty());
                            lemma_empty_is_suffix(y);
                        }
                    }
                }
                k -= 1;
            }
            proof {
                assert(border_search(pattern@, y, k as int) == k as int);
                assert(k as int == delta(pattern@, q as int, a));
            }
            row.push(k);
            j += 1;
        }
        automaton.transitions.push(row);
        q += 1;
    }
    automaton
}

/// An automaton-based matcher over borrowed alphabet, pattern, and text.
/// The table is built eagerly at construction; `iter` then yields the match
/// spans lazily.
#[derive(Debug)]
pub struct Matcher<'a> {
    text: &'a [char],
    automaton: Automaton<'a>,
}

/// A cursor over the remaining matches: pull `next` until it yields `None`.
pub struct MatcherIter<'a> {
    matcher: &'a Matcher<'a>,
    current_state: usize,
    current_index: usize,
}

impl<'a> Matcher<'a> {
    pub closed spec fn alphabet(&self) -> Seq<char> {
        self.automaton.alphabet@
    }

    pub closed spec fn pattern(&self) -> Seq<char> {
        self.automaton.pattern@
    }

    pub closed spec fn text(&self) -> Seq<char> {
        self.text@
    }

    /// The table is fully built and every text symbol belongs to the
    /// alphabet, so each scanning step has a defined transition.
    pub closed spec fn wf(&self) -> bool {
        &&& self.automaton.wf()
        &&& forall|i: int|
            0 <= i < self.text@.len() ==> self.alphabet().contains(#[trigger] self.text@[i])
    }

    /// Builds the matcher, paying the whole table construction up front.
    /// Every symbol of the pattern and of the text must belong to the
    /// alphabet; the pattern length bound only keeps the state count
    /// representable.
    pub fn new(alphabet: &'a [char], pattern: &'a [char], text: &'a [char]) -> (m: Matcher<'a>)
        requires
            pattern@.len() < usize::MAX,
            forall|i: int| 0 <= i < pattern@.len() ==> alphabet@.contains(#[trigger] pattern@[i]),
            forall|i: int| 0 <= i < text@.len() ==> alphabet@.contains(#[trigger] text@[i]),
        ensures
            m.wf(),
            m.alphabet() == alphabet@,
            m.pattern() == pattern@,
            m.text() == text@,
    {
        Matcher { text, automaton: create_automaton(alphabet, pattern) }
    }

    /// A fresh cursor at the start of the text with nothing emitted yet.
    pub fn iter(&self) -> (it: MatcherIter)
        requires
            self.wf(),
        ensures
            it.wf(),
            it.pattern() == self.pattern(),
            it.text() == self.text(),
            it.emitted() == Seq::<(int, int)>::empty(),
    {
        let it = MatcherIter { matcher: self, current_state: 0, current_index: 0 };
        proof {
            assert(it.emitted() =~= Seq::<(int, int)>::empty());
        }
        it
    }
}

impl<'a> MatcherIter<'a> {
    pub closed spec fn pattern(&self) -> Seq<char> {
        self.matcher.pattern()
    }

    pub closed spec fn text(&self) -> Seq<char> {
        self.matcher.text()
    }

    /// The scan frontier: every match end strictly below it has been
    /// reported.  A state equal to the pattern length records that the span
    /// ending at the current index was already emitted; for the empty
    /// pattern the state is only such a marker (`1` after the final
    /// position's zero-length match is out).
    pub closed spec fn pos(&self) -> int {
        if self.pattern().len() == 0 {
            self.current_index + self.current_state
        } else if self.current_state == self.pattern().len() {
            self.current_index as int + 1
        } else {
            self.current_index as int
        }
    }

    /// The spans this cursor has yielded so far, in order.
    pub closed spec fn emitted(&self) -> Seq<(int, int)> {
        spans_up_to(self.text(), self.pattern(), self.pos())
    }

    /// The cursor has consumed the whole text and reported every span.
    pub closed spec fn exhausted(&self) -> bool {
        if self.pattern().len() == 0 {
            self.current_index == self.text().len() && self.current_state == 1
        } else {
            self.current_index == self.text().len()
        }
    }

    pub closed spec fn wf(&self) -> bool {
        &&& self.matcher.wf()
        &&& self.current_index <= self.text().len()
        &&& if self.pattern().len() == 0 {
            &&& self.current_state <= 1
            &&& (self.current_state == 1 ==> self.current_index == self.text().len())
        } else {
            self.current_state as int == sigma(
                self.pattern(),
                self.text().take(self.current_index as int),
            )
        }
    }

    /// Yields the next match span, or `None` once the text is exhausted.
    /// Spans come in increasing order of end index; across a whole run the
    /// cursor emits exactly `spans_of(text, pattern)`.
    #[verifier::loop_isolation(false)]
    pub fn next(&mut self) -> (r: Option<(usize, usize)>)
        requires
            old(self).wf(),
        ensures
            final(self).wf(),
            final(self).pattern() == old(self).pattern(),
            final(self).text() == old(self).text(),
            spans_of(final(self).text(), final(self).pattern()).take(
                final(self).emitted().len() as int,
            ) == final(self).emitted(),
            match r {
                Some(sp) => {
                    &&& final(self).emitted() == old(self).emitted().push(
                        (sp.0 as int, sp.1 as int),
                    )
                    &&& sp.1 as int - sp.0 as int == final(self).pattern().len()
                    &&& match_end_at(final(self).text(), final(self).pattern(), sp.1 as int)
                },
                None => {
                    &&& final(self).emitted() == old(self).emitted()
                    &&& final(self).emitted() == spans_of(final(self).text(), final(self).pattern())
                    &&& final(self).exhausted()
                },
            },
    {
        let ghost init = *self;
        let ghost pat = self.pattern();
        let ghost txt = self.text();
        let ghost ends0 = match_ends_up_to(txt, pat, init.pos());
        let n = self.matcher.text.len();
        let m = self.matcher.automaton.pattern.len();
        if m == 0 {
            let r = self.next_empty_pattern();
            proof {
                self.lemma_prefix_of_spans();
            }
            return r;
        }
        while self.current_index < n
            invariant
                self.matcher == init.matcher,
                self.wf(),
                m == pat.len(),
                1 <= m,
                n == txt.len(),
                pat == self.pattern(),
                txt == self.text(),
                match_ends_up_to(txt, pat, self.pos()) == ends0,
            decreases n - self.current_index,
        {
            let ghost i = self.current_index as int;
            let ghost pos_top = self.pos();
            let c = self.matcher.text[self.current_index];
            proof {
                lemma_sigma_bounds(pat, txt.take(i));
            }
            let q2 = self.matcher.automaton.accept(self.current_state, c);
            proof {
                lemma_sigma_step(pat, txt.take(i), c);
                assert(txt.take(i).push(c) =~= txt.take(i + 1));
                lemma_sigma_is_match(txt, pat, i);
                lemma_sigma_is_match(txt, pat, i + 1);
                // Nothing was skipped: either the span ending at i was
                // already counted, or there is none.
                assert(match_ends_up_to(txt, pat, i + 1) == ends0) by {
                    if pos_top == i {
                        assert(!match_end_at(txt, pat, i));
                        assert(match_ends_up_to(txt, pat, i + 1) == match_ends_up_to(txt, pat, i));
                    }
                }
            }
            self.current_state = q2;
            self.current_index += 1;
            if self.matcher.automaton.is_accepting(q2) {
                proof {
                    lemma_sigma_full(pat, txt.take(i + 1));
                    assert(match_end_at(txt, pat, i + 1));
                    assert(match_ends_up_to(txt, pat, i + 2) == match_ends_up_to(
                        txt,
                        pat,
                        i + 1,
                    ).push(i + 1));
                    assert(self.pos() == i + 2);
                    lemma_spans_up_to_push(txt, pat, i + 1);
                    assert(init.emitted() == spans_up_to(txt, pat, i + 1));
                    assert(self.emitted() == init.emitted().push((i + 1 - m as int, i + 1)));
                    self.lemma_prefix_of_spans();
                }
                return Some((self.current_index - m, self.current_index));
            }
        }
        proof {
            lemma_sigma_is_match(txt, pat, n as int);
            assert(match_ends_up_to(txt, pat, n as int + 1) == match_ends_up_to(
                txt,
                pat,
                self.pos(),
            )) by {
                if self.pos() == n as int {
                    assert(!match_end_at(txt, pat, n as int));
                }
            }
            self.lemma_prefix_of_spans();
        }
        None
    }

    /// The degenerate case: a zero-length pattern matches once at every
    /// position `0 ..= text.len()`, so the run yields `text.len() + 1`
    /// zero-length spans.
    fn next_empty_pattern(&mut self) -> (r: Option<(usize, usize)>)
        requires
            old(self).wf(),
            old(self).pattern().len() == 0,
        ensures
            final(self).wf(),
            final(self).pattern() == old(self).pattern(),
            final(self).text() == old(self).text(),
            match r {
                Some(sp) => {
                    &&& final(self).emitted() == old(self).emitted().push(
                        (sp.0 as int, sp.1 as int),
                    )
                    &&& sp.1 as int - sp.0 as int == final(self).pattern().len()
                    &&& match_end_at(final(self).text(), final(self).pattern(), sp.1 as int)
                },
                None => {
                    &&& final(self).emitted() == old(self).emitted()
                    &&& final(self).emitted() == spans_of(final(self).text(), final(self).pattern())
                    &&& final(self).exhausted()
                },
            },
    {
        let ghost init = *self;
        let ghost pat = self.pattern();
        let ghost txt = self.text();
        if self.current_state == 0 {
            let i = self.current_index;
            proof {
                lemma_match_end_empty(txt, pat, i as int);
            }
            if i < self.matcher.text.len() {
                self.current_index = i + 1;
            } else {
                self.current_state = 1;
            }
            proof {
                assert(match_ends_up_to(txt, pat, i as int + 1) == match_ends_up_to(
                    txt,
                    pat,
                    i as int,
                ).push(i as int));
                assert(self.emitted() =~= init.emitted().push((i as int, i as int)));
            }
            Some((i, i))
        } else {
            None
        }
    }

    /// An exhausted cursor has emitted the full span sequence.
    pub proof fn lemma_exhausted_emits_all(&self)
        requires
            self.wf(),
            self.exhausted(),
        ensures
            self.emitted() == spans_of(self.text(), self.pattern()),
    {
        let txt = self.text();
        let pat = self.pattern();
        let n = txt.len() as int;
        if pat.len() == 0 {
            assert(self.pos() == n + 1);
        } else {
            lemma_sigma_is_match(txt, pat, n);
            assert(match_ends_up_to(txt, pat, n + 1) == match_ends_up_to(txt, pat, self.pos()))
                by {
                if self.pos() == n {
                    assert(!match_end_at(txt, pat, n));
                }
            }
        }
    }

    /// What has been emitted is always a prefix of the full span sequence.
    proof fn lemma_prefix_of_spans(&self)
        requires
            self.wf(),
    ensures
            spans_of(self.text(), self.pattern()).take(self.emitted().len() as int)
                == self.emitted(),
    {
        let txt = self.text();
        let pat = self.pattern();
        let full = txt.len() as int + 1;
        assert(self.pos() <= full);
        lemma_match_ends_up_to_prefix(txt, pat, self.pos(), full);
        lemma_match_ends_up_to_len_monotone(txt, pat, self.pos(), full);
        let ends = match_ends_up_to(txt, pat, self.pos());
        assert(spans_of(txt, pat).take(ends.len() as int) =~= self.emitted());
    }
}

} // verus!
