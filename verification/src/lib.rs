//! An on-demand SLG solver for Horn-clause logic with tabling.
//!
//! The crate answers queries of the form "does goal `G` hold under program
//! `P`?" by lazily building a forest of tables, one per canonicalized goal.
//! Each table accumulates deduplicated answers and pending partial proofs
//! (strands); the evaluator pursues strands on demand, detecting cycles
//! against an explicit stack, treating cyclic dependencies on coinductive
//! goals as true, and delaying negative literals that cannot yet be
//! resolved.
//!
//! Layout: `ast` is the surface syntax tree; `ir` the logical
//! representation and its equality relations; `ops` the structural
//! operations on it; `infer` the inference table (unification,
//! canonicalization, inversion, truncation); `table` the memoization
//! records; `resolvent` the resolution steps; and `forest` the evaluator.

pub mod ast;
pub mod ir;
pub mod forest;
pub mod infer;
pub mod ops;
pub mod resolvent;
pub mod table;
