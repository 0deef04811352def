//! The statement and output trees of the block expander.
//!
//! A block is an ordered sequence of [`Stmt`] values.  Expansion rewrites a
//! block into a [`Code`] tree: nested `sequence` calls ending in either the
//! bare tail expression or a `lift` call.  Expression payloads are opaque
//! byte strings carried through verbatim; the expander never looks inside
//! them.

use vstd::prelude::*;

verus! {

/// One statement of a block, as classified by the grammar.
///
/// A discarding statement covers both the explicit wildcard binder
/// `_ <- expr;` and the bare terminated expression `expr;`: the two shapes
/// have the same meaning, so they share one kind.
#[derive(Debug, PartialEq, Eq)]
pub enum Stmt {
    /// `name <- expr;` — bind the unwrapped payload of `expr` to `name`.
    Bind { name: Vec<u8>, expr: Vec<u8> },
    /// `_ <- expr;` or `expr;` — run `expr` for its structural effect only.
    Discard { expr: Vec<u8> },
    /// `return expr;` — valid only as the last statement.
    Ret { expr: Vec<u8> },
    /// A final bare expression, with no trailing separator.
    Tail { expr: Vec<u8> },
}

/// The mathematical value of a [`Stmt`]: the same shape over byte sequences.
pub enum StmtView {
    Bind { name: Seq<u8>, expr: Seq<u8> },
    Discard { expr: Seq<u8> },
    Ret { expr: Seq<u8> },
    Tail { expr: Seq<u8> },
}

impl View for Stmt {
    type V = StmtView;

    open spec fn view(&self) -> StmtView {
        match self {
            Stmt::Bind { name, expr } => StmtView::Bind { name: name@, expr: expr@ },
            Stmt::Discard { expr } => StmtView::Discard { expr: expr@ },
            Stmt::Ret { expr } => StmtView::Ret { expr: expr@ },
            Stmt::Tail { expr } => StmtView::Tail { expr: expr@ },
        }
    }
}

/// The views of a whole block of statements.
pub open spec fn block_view(stmts: Seq<Stmt>) -> Seq<StmtView> {
    stmts.map_values(|s: Stmt| s@)
}

/// The expression tree produced by expansion.
///
/// `SequenceCall { expr, binder, rest }` stands for the call
/// `sequence(expr, |binder| rest)`, with `binder` absent for a discarded
/// binding; `LiftCall { expr }` stands for `lift(expr)`; `Atom { expr }` is
/// the tail expression itself, unmodified.
#[derive(Debug, PartialEq, Eq)]
pub enum Code {
    /// The tail expression, passed through unchanged.
    Atom { expr: Vec<u8> },
    /// `lift(expr)`, produced by the `return` form.
    LiftCall { expr: Vec<u8> },
    /// `sequence(expr, |binder| rest)`; a `None` binder is the wildcard.
    SequenceCall { expr: Vec<u8>, binder: Option<Vec<u8>>, rest: Box<Code> },
}

/// The mathematical value of a [`Code`] tree.
pub enum CodeView {
    Atom { expr: Seq<u8> },
    LiftCall { expr: Seq<u8> },
    SequenceCall { expr: Seq<u8>, binder: Option<Seq<u8>>, rest: Box<CodeView> },
}

/// The view of a [`Code`] tree, by structural recursion.
pub open spec fn code_view(c: Code) -> CodeView
    decreases c,
{
    match c {
        Code::Atom { expr } => CodeView::Atom { expr: expr@ },
        Code::LiftCall { expr } => CodeView::LiftCall { expr: expr@ },
        Code::SequenceCall { expr, binder, rest } => CodeView::SequenceCall {
            expr: expr@,
            binder: match binder {
                Some(name) => Some(name@),
                None => None,
            },
            rest: Box::new(code_view(*rest)),
        },
    }
}

impl View for Code {
    type V = CodeView;

    open spec fn view(&self) -> CodeView {
        code_view(*self)
    }
}

/// Why a block was rejected at expansion time.
#[derive(Debug, PartialEq, Eq)]
pub enum ExpandError {
    /// The block holds no statement at all.
    EmptyBlock,
    /// A `return` statement is followed by further statements.
    ReturnNotLast,
    /// A bare terminal expression stands before the end of the block.
    TailNotLast,
    /// The last statement is a terminated binding, so no terminal
    /// expression ends the block.
    MissingTail,
}

} // verus!
