//! The block expander: the recursive rewrite of a statement sequence into a
//! tree of nested `sequence` calls.
//!
//! The rules, applied to the first statement of the remaining sequence:
//!
//! 1. `return expr;` as the sole remaining statement becomes `lift(expr)`;
//!    a `return` followed by anything is rejected.
//! 2. `_ <- expr;` or `expr;` becomes `sequence(expr, |_| rest)`.
//! 3. `name <- expr;` becomes `sequence(expr, |name| rest)`; the name is in
//!    scope for the whole expanded remainder, with the host language's
//!    ordinary lexical shadowing.
//! 4. A final bare expression becomes itself, unmodified; one that is not
//!    last is rejected, as is a block with no statements or one whose last
//!    statement is a terminated binding.

use vstd::prelude::*;

use crate::ast::{block_view, Code, CodeView, ExpandError, Stmt, StmtView};

verus! {

/// The expansion of a statement sequence, or `None` where no rule applies.
pub open spec fn spec_expand(stmts: Seq<StmtView>) -> Option<CodeView>
    decreases stmts.len(),
{
    if stmts.len() == 0 {
        None
    } else {
        match stmts[0] {
            StmtView::Ret { expr } => if stmts.len() == 1 {
                Some(CodeView::LiftCall { expr })
            } else {
                None
            },
            StmtView::Tail { expr } => if stmts.len() == 1 {
                Some(CodeView::Atom { expr })
            } else {
                None
            },
            StmtView::Bind { name, expr } => match spec_expand(stmts.drop_first()) {
                Some(rest) => Some(
                    CodeView::SequenceCall { expr, binder: Some(name), rest: Box::new(rest) },
                ),
                None => None,
            },
            StmtView::Discard { expr } => match spec_expand(stmts.drop_first()) {
                Some(rest) => Some(
                    CodeView::SequenceCall { expr, binder: None, rest: Box::new(rest) },
                ),
                None => None,
            },
        }
    }
}

/// A block has a valid production exactly when it is non-empty, every
/// statement before the last is a binding, and the last statement is the
/// terminal expression or the `return` form.
pub open spec fn well_formed(stmts: Seq<StmtView>) -> bool {
    &&& stmts.len() > 0
    &&& (stmts.last() is Ret || stmts.last() is Tail)
    &&& forall|i: int|
        0 <= i < stmts.len() - 1 ==> ((#[trigger] stmts[i]) is Bind || stmts[i] is Discard)
}

/// The rejection reported for an ill-formed block: the first statement that
/// is a misplaced `return` or terminal expression decides, and a block of
/// bindings alone has no terminal.
pub open spec fn spec_reject(stmts: Seq<StmtView>) -> ExpandError
    decreases stmts.len(),
{
    if stmts.len() == 0 {
        ExpandError::EmptyBlock
    } else if stmts.len() == 1 {
        ExpandError::MissingTail
    } else {
        match stmts[0] {
            StmtView::Ret { .. } => ExpandError::ReturnNotLast,
            StmtView::Tail { .. } => ExpandError::TailNotLast,
            _ => spec_reject(stmts.drop_first()),
        }
    }
}

/// Expansion succeeds on exactly the well-formed blocks.
pub proof fn lemma_expand_some_iff_well_formed(stmts: Seq<StmtView>)
    ensures
        spec_expand(stmts) is Some <==> well_formed(stmts),
    decreases stmts.len(),
{
    if stmts.len() == 0 {
    } else if stmts.len() == 1 {
        assert(stmts.last() == stmts[0]);
    } else {
        match stmts[0] {
            StmtView::Ret { .. } => {
                assert(!well_formed(stmts)) by {
                    assert(stmts[0] is Ret);
                }
            },
            StmtView::Tail { .. } => {
                assert(!well_formed(stmts)) by {
                    assert(stmts[0] is Tail);
                }
            },
            _ => {
                let rest = stmts.drop_first();
                lemma_expand_some_iff_well_formed(rest);
                assert(rest.last() == stmts.last());
                if well_formed(rest) {
                    assert(well_formed(stmts)) by {
                        assert forall|i: int| 0 <= i < stmts.len() - 1 implies
                            ((#[trigger] stmts[i]) is Bind || stmts[i] is Discard) by {
                            if i > 0 {
                                assert(stmts[i] == rest[i - 1]);
                            }
                        }
                    }
                } else {
                    assert(!well_formed(stmts)) by {
                        if well_formed(stmts) {
                            assert forall|i: int| 0 <= i < rest.len() - 1 implies
                                ((#[trigger] rest[i]) is Bind || rest[i] is Discard) by {
                                assert(rest[i] == stmts[i + 1]);
                            }
                            assert(well_formed(rest));
                        }
                    }
                }
            },
        }
    }
}

/// Expand a block of statements into the rewritten expression tree, or
/// report exactly why no rule matches.
pub fn expand(stmts: Vec<Stmt>) -> (r: Result<Code, ExpandError>)
    ensures
        r is Ok <==> well_formed(block_view(stmts@)),
        r matches Ok(c) ==> Some(c@) == spec_expand(block_view(stmts@)),
        r matches Err(e) ==> e == spec_reject(block_view(stmts@)),
{
    let ghost v = block_view(stmts@);
    let n: usize = stmts.len();
    if n == 0 {
        return Err(ExpandError::EmptyBlock);
    }
    proof {
        assert(v.skip(0) =~= v);
    }
    let mut i: usize = 0;
    while i < n - 1
        invariant
            n == stmts@.len(),
            n == v.len(),
            n > 0,
            0 <= i <= n - 1,
            v == block_view(stmts@),
            spec_reject(v) == spec_reject(v.skip(i as int)),
            forall|j: int| 0 <= j < i ==> ((#[trigger] v[j]) is Bind || v[j] is Discard),
        decreases n - i,
    {
        proof {
            assert(v.skip(i as int)[0] == v[i as int]);
        }
        match &stmts[i] {
            Stmt::Ret { .. } => {
                return Err(ExpandError::ReturnNotLast);
            },
            Stmt::Tail { .. } => {
                return Err(ExpandError::TailNotLast);
            },
            _ => {
                proof {
                    assert(v.skip(i as int).drop_first() =~= v.skip(i as int + 1));
                }
                i = i + 1;
            },
        }
    }
    let mut stmts = stmts;
    let mut code: Code;
    match stmts.pop() {
        Some(Stmt::Ret { expr }) => {
            code = Code::LiftCall { expr };
        },
        Some(Stmt::Tail { expr }) => {
            code = Code::Atom { expr };
        },
        _ => {
            proof {
                assert(v.skip(n - 1).len() == 1);
                assert(v.last() == v.skip(n - 1)[0]);
            }
            return Err(ExpandError::MissingTail);
        },
    }
    proof {
        assert(v.skip(n - 1) =~= seq![v.last()]);
        assert(Some(code@) == spec_expand(v.skip(n - 1)));
    }
    let mut m: usize = n - 1;
    while m > 0
        invariant
            m == stmts@.len(),
            0 <= m <= n - 1,
            n == v.len(),
            block_view(stmts@) == v.take(m as int),
            Some(code@) == spec_expand(v.skip(m as int)),
            forall|j: int| 0 <= j < n - 1 ==> ((#[trigger] v[j]) is Bind || v[j] is Discard),
        decreases m,
    {
        proof {
            assert(block_view(stmts@)[m - 1] == v[m - 1]);
            assert(v.skip(m - 1)[0] == v[m - 1]);
            assert(v.skip(m as int - 1).drop_first() =~= v.skip(m as int));
        }
        match stmts.pop() {
            Some(Stmt::Bind { name, expr }) => {
                code = Code::SequenceCall { expr, binder: Some(name), rest: Box::new(code) };
            },
            Some(Stmt::Discard { expr }) => {
                code = Code::SequenceCall { expr, binder: None, rest: Box::new(code) };
            },
            _ => {
                return vstd::pervasive::unreached();
            },
        }
        m = m - 1;
        proof {
            assert(block_view(stmts@) =~= v.take(m as int));
        }
    }
    proof {
        assert(v.skip(0) =~= v);
        lemma_expand_some_iff_well_formed(v);
    }
    Ok(code)
}

/// Tail identity: a block of one bare expression expands to exactly that
/// expression, unmodified.
pub proof fn lemma_tail_identity(e: Seq<u8>)
    ensures
        spec_expand(seq![StmtView::Tail { expr: e }]) == Some(CodeView::Atom { expr: e }),
{
}

/// Return lift: `return expr;` as the sole statement expands to `lift(expr)`.
pub proof fn lemma_return_lift(e: Seq<u8>)
    ensures
        spec_expand(seq![StmtView::Ret { expr: e }]) == Some(CodeView::LiftCall { expr: e }),
{
}

/// Bind nesting: `a <- e1; a <- e2; e3` expands to
/// `sequence(e1, |a| sequence(e2, |a| e3))` — the reused name is bound anew
/// in the inner continuation, where the host language's scoping makes it
/// shadow the outer binding.
pub proof fn lemma_bind_nesting(a: Seq<u8>, e1: Seq<u8>, e2: Seq<u8>, e3: Seq<u8>)
    ensures
        spec_expand(
            seq![
                StmtView::Bind { name: a, expr: e1 },
                StmtView::Bind { name: a, expr: e2 },
                StmtView::Tail { expr: e3 },
            ],
        ) == Some(
            CodeView::SequenceCall {
                expr: e1,
                binder: Some(a),
                rest: Box::new(
                    CodeView::SequenceCall {
                        expr: e2,
                        binder: Some(a),
                        rest: Box::new(CodeView::Atom { expr: e3 }),
                    },
                ),
            },
        ),
{
    let s = seq![
        StmtView::Bind { name: a, expr: e1 },
        StmtView::Bind { name: a, expr: e2 },
        StmtView::Tail { expr: e3 },
    ];
    assert(s.drop_first() =~= seq![StmtView::Bind { name: a, expr: e2 }, StmtView::Tail {
        expr: e3,
    }]);
    assert(s.drop_first().drop_first() =~= seq![StmtView::Tail { expr: e3 }]);
    assert(spec_expand(s.drop_first().drop_first()) == Some(CodeView::Atom { expr: e3 }));
    assert(spec_expand(s.drop_first()) == Some(
        CodeView::SequenceCall {
            expr: e2,
            binder: Some(a),
            rest: Box::new(CodeView::Atom { expr: e3 }),
        },
    ));
}

} // verus!

