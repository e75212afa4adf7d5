//! Lexical front end for a Motorola-68000-style assembly language.
//!
//! The pipeline turns raw source text into a line-oriented intermediate
//! representation: a constant-substitution pre-pass rewrites `equ` bindings,
//! each line is classified, instruction operand lists are split with
//! awareness of parenthesised groups, and every operand is decomposed into a
//! typed addressing-mode tree.

pub mod ast;
pub mod classify;
pub mod laws;
pub mod lexer;
pub mod parse;
pub mod split;
pub mod subst;
pub mod text;
