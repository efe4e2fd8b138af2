//! Exact string-pattern matching over a finite alphabet, implemented twice:
//! once as a deterministic finite automaton built from the pattern's overlap
//! structure, and once as a Knuth-Morris-Pratt matcher built from the
//! pattern's failure function.  Both matchers are proved to emit exactly the
//! spans described by one declarative specification, so their outputs agree
//! on every input.  A small arithmetic-expression subsystem (a visitor-based
//! evaluator and a reverse-Polish-notation printer over an expression tree)
//! lives alongside the matchers.

pub mod ast;
pub mod automaton;
pub mod borders;
pub mod equivalence;
pub mod knuth_morris_pratt;
pub mod spans;
