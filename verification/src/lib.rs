//! Do-notation blocks for monad-like structures.
//!
//! A *block* is a semicolon-separated sequence of statements in the shapes
//! `name <- expr;`, `_ <- expr;`, `expr;`, `return expr;` (last only) and a
//! final bare `expr`.  The library parses such a block from raw bytes
//! ([`parser`]), classifies each statement ([`ast`]), and expands the block
//! into a tree of nested `sequence` calls with a `lift` call for the
//! `return` form ([`expander`]).  Expansion is a pure rewrite; the two
//! capabilities a structure must supply — lifting a bare value and
//! sequencing with a continuation — are described by [`Lift`] and
//! demonstrated by the structures in [`effects`].

use vstd::prelude::*;

pub mod ast;
pub mod effects;
pub mod expander;
pub mod parser;

verus! {

/// Lift a value inside a monad-like structure: build the default instance of
/// the structure around a bare value.
pub trait Lift<A>: Sized {
    /// The structure that `lift` promises to return.
    spec fn spec_lift(a: A) -> Self;

    /// Wrap a bare value into the default structural context.
    fn lift(a: A) -> (r: Self)
        ensures
            r == Self::spec_lift(a),
    ;
}

/// Lifting into the optional structure yields a present value.
impl<A> Lift<A> for Option<A> {
    open spec fn spec_lift(a: A) -> Option<A> {
        Some(a)
    }

    fn lift(a: A) -> (r: Option<A>) {
        Some(a)
    }
}

/// Lifting into the fallible structure yields a success.
impl<A, E> Lift<A> for Result<A, E> {
    open spec fn spec_lift(a: A) -> Result<A, E> {
        Ok(a)
    }

    fn lift(a: A) -> (r: Result<A, E>) {
        Ok(a)
    }
}

} // verus!
