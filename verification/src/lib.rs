//! Compile-time enum-variant inliner.
//!
//! The library takes the token stream of exactly two items — an enum
//! declaration followed by an `impl` block for that enum — and rewrites
//! every method of the `impl` block into a `match` over the receiver with
//! one arm per variant.  Inside each arm the method's original body is
//! copied with every occurrence of a placeholder identifier (declared as
//! a const generic parameter of type `ident`) replaced by that arm's
//! variant name.  The host compiler's macro machinery supplies the input
//! tokens and consumes the output tokens; everything in between is
//! implemented and specified here over the library's own token model.

pub mod emit;
pub mod error;
pub mod expand;
pub mod inline;
pub mod laws;
pub mod parse;
pub mod scan;
pub mod subst;
pub mod token;
