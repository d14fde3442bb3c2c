//! A decision procedure for propositional sequents in a Gentzen-style
//! sequent calculus, together with a verified lexer and parser for claims
//! and a LaTeX renderer for the resulting derivation trees.
//!
//! The calculus has no contraction rule: a hypothesis or goal is consumed
//! by the rule that decomposes it and never duplicated, so some classically
//! valid sequents are reported as open leaves rather than closed proofs.

pub mod ast;
pub mod latex;
pub mod lexer;
pub mod parser;
pub mod proofsearch;
