//! Parsing and expanding blocks given as raw bytes.

use do_notation::ast::{Code, ExpandError, Stmt};
use do_notation::expander::expand;
use do_notation::parser::{classify_stmt, expand_block, parse_block};

#[test]
fn tail_identity() {
    let r = expand_block(b"f(x)").unwrap();
    assert_eq!(r, Code::Atom { expr: b"f(x)".to_vec() });
}

#[test]
fn return_lift() {
    let r = expand_block(b"return x + 1;").unwrap();
    assert_eq!(r, Code::LiftCall { expr: b"x + 1".to_vec() });
}

#[test]
fn bind_nesting() {
    let r = expand_block(b"a <- E1; a <- E2; E3").unwrap();
    assert_eq!(
        r,
        Code::SequenceCall {
            expr: b"E1".to_vec(),
            binder: Some(b"a".to_vec()),
            rest: Box::new(Code::SequenceCall {
                expr: b"E2".to_vec(),
                binder: Some(b"a".to_vec()),
                rest: Box::new(Code::Atom { expr: b"E3".to_vec() }),
            }),
        }
    );
}

#[test]
fn discard_forms_agree() {
    let explicit = classify_stmt(b"_ <- effect(x)");
    let implicit = classify_stmt(b"effect(x)");
    assert_eq!(explicit, Stmt::Discard { expr: b"effect(x)".to_vec() });
    assert_eq!(explicit, implicit);
}

#[test]
fn discard_and_return_block() {
    let r = expand_block(b"_ <- check(); return done;").unwrap();
    assert_eq!(
        r,
        Code::SequenceCall {
            expr: b"check()".to_vec(),
            binder: None,
            rest: Box::new(Code::LiftCall { expr: b"done".to_vec() }),
        }
    );
}

#[test]
fn separators_nest_inside_brackets() {
    let stmts = parse_block(b"x <- f(a; b); x");
    assert_eq!(
        stmts,
        vec![
            Stmt::Bind { name: b"x".to_vec(), expr: b"f(a; b)".to_vec() },
            Stmt::Tail { expr: b"x".to_vec() },
        ]
    );
}

#[test]
fn whitespace_is_trimmed() {
    let stmts = parse_block(b"  x  <-  f ( ) ;\n  g ");
    assert_eq!(
        stmts,
        vec![
            Stmt::Bind { name: b"x".to_vec(), expr: b"f ( )".to_vec() },
            Stmt::Tail { expr: b"g".to_vec() },
        ]
    );
}

#[test]
fn malformed_binder_is_a_plain_expression() {
    let stmt = classify_stmt(b"a.b <- f()");
    assert_eq!(stmt, Stmt::Discard { expr: b"a.b <- f()".to_vec() });
}

#[test]
fn return_needs_a_keyword_boundary() {
    let stmt = classify_stmt(b"returning(x)");
    assert_eq!(stmt, Stmt::Discard { expr: b"returning(x)".to_vec() });
    let stmt = classify_stmt(b"return (x)");
    assert_eq!(stmt, Stmt::Ret { expr: b"(x)".to_vec() });
}

#[test]
fn empty_block_is_rejected() {
    assert_eq!(expand_block(b""), Err(ExpandError::EmptyBlock));
    assert_eq!(expand_block(b"   "), Err(ExpandError::EmptyBlock));
}

#[test]
fn return_must_be_last() {
    assert_eq!(expand_block(b"return x; y"), Err(ExpandError::ReturnNotLast));
}

#[test]
fn terminated_block_needs_a_tail() {
    assert_eq!(expand_block(b"x <- f();"), Err(ExpandError::MissingTail));
}

#[test]
fn tail_must_be_last() {
    let stmts = vec![
        Stmt::Tail { expr: b"x".to_vec() },
        Stmt::Tail { expr: b"y".to_vec() },
    ];
    assert_eq!(expand(stmts), Err(ExpandError::TailNotLast));
}
