//! The system's core correctness property: the automaton matcher and the
//! Knuth-Morris-Pratt matcher emit identical span sequences.
//!
//! Each `next` contract already pins every emission to the one declarative
//! sequence `spans_of`, so the agreement of the two algorithms is a theorem
//! about their cursors rather than a convention.

use crate::automaton;
use crate::knuth_morris_pratt;
use vstd::prelude::*;

verus! {

/// Two exhausted cursors over the same pattern and text — one driven by the
/// automaton, one by Knuth-Morris-Pratt — have emitted the very same spans,
/// in the same order.
pub proof fn lemma_matchers_agree(
    aut: &automaton::MatcherIter,
    kmp: &knuth_morris_pratt::MatcherIter,
)
    requires
        aut.wf(),
        kmp.wf(),
        aut.exhausted(),
        kmp.exhausted(),
        aut.pattern() == kmp.pattern(),
        aut.text() == kmp.text(),
    ensures
        aut.emitted() == kmp.emitted(),
{
    aut.lemma_exhausted_emits_all();
    kmp.lemma_exhausted_emits_all();
}

} // verus!
