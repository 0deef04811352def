//! Splitting a raw block into statements and classifying each one.
//!
//! The notation is textual: a block is a byte string of statements separated
//! by `;`.  A separator counts only at top level, that is outside every pair
//! of round, square or curly brackets; bracket depth is the only nesting the
//! splitter tracks, since expression payloads are opaque.  Each terminated
//! statement is classified, in this priority order: the `return` form, the
//! wildcard binder `_ <- expr`, the named binder `name <- expr` (an ASCII
//! identifier), and otherwise a plain expression, run for its effect only.
//! A binder arrow `<-` with anything else on its left is not rejected: the
//! whole statement is reinterpreted as a plain expression.  Whatever follows
//! the last separator, if anything besides whitespace, is the block's tail
//! expression.  Payloads are trimmed of surrounding whitespace and otherwise
//! passed through verbatim, so an empty statement yields an empty payload.

use vstd::prelude::*;
use vstd::slice::slice_subrange;
use vstd::slice::slice_to_vec;

use crate::ast::{block_view, Code, ExpandError, Stmt, StmtView};
use crate::expander::{expand, spec_expand, spec_reject, well_formed};

verus! {

/// Whitespace: space, tab, line feed, carriage return.
pub open spec fn is_ws(b: u8) -> bool {
    b == 32 || b == 9 || b == 10 || b == 13
}

/// An opening bracket: `(`, `[` or `{`.
pub open spec fn is_open(b: u8) -> bool {
    b == 40 || b == 91 || b == 123
}

/// A closing bracket: `)`, `]` or `}`.
pub open spec fn is_close(b: u8) -> bool {
    b == 41 || b == 93 || b == 125
}

/// Bracket depth after reading one byte at depth `d`.
pub open spec fn depth_step(b: u8, d: int) -> int {
    if is_open(b) {
        d + 1
    } else if is_close(b) {
        d - 1
    } else {
        d
    }
}

/// A byte that may start an ASCII identifier.
pub open spec fn is_ident_start(b: u8) -> bool {
    b == 95 || (65 <= b <= 90) || (97 <= b <= 122)
}

/// A byte that may continue an ASCII identifier.
pub open spec fn is_ident_char(b: u8) -> bool {
    is_ident_start(b) || (48 <= b <= 57)
}

/// A non-empty ASCII identifier.
pub open spec fn is_ident(s: Seq<u8>) -> bool {
    &&& s.len() > 0
    &&& is_ident_start(s[0])
    &&& forall|i: int| 0 <= i < s.len() ==> is_ident_char(#[trigger] s[i])
}

/// The index of the first top-level `;` at or after `i`, starting from
/// bracket depth `d`, or the length where there is none.
pub open spec fn first_sep_from(s: Seq<u8>, i: int, d: int) -> int
    decreases s.len() - i,
{
    if i < 0 || i >= s.len() {
        s.len() as int
    } else if s[i] == 59 && d == 0 {
        i
    } else {
        first_sep_from(s, i + 1, depth_step(s[i], d))
    }
}

/// The first top-level separator lies between `i` and the end; where it is
/// not the end, it is indeed a `;`.
pub proof fn lemma_first_sep_bounds(s: Seq<u8>, i: int, d: int)
    requires
        0 <= i <= s.len(),
    ensures
        i <= first_sep_from(s, i, d) <= s.len(),
        first_sep_from(s, i, d) < s.len() ==> s[first_sep_from(s, i, d)] == 59,
    decreases s.len() - i,
{
    if i < s.len() && !(s[i] == 59 && d == 0) {
        lemma_first_sep_bounds(s, i + 1, depth_step(s[i], d));
    }
}

/// The segments of a block: the parts between the top-level separators, in
/// order, ending with whatever follows the last separator.  There is always
/// at least one segment, and only the last is unterminated.
pub open spec fn split_segments(s: Seq<u8>) -> Seq<Seq<u8>>
    decreases s.len(),
    via split_segments_decreases
{
    let j = first_sep_from(s, 0, 0);
    if j >= s.len() {
        seq![s]
    } else {
        seq![s.take(j)] + split_segments(s.skip(j + 1))
    }
}

#[via_fn]
proof fn split_segments_decreases(s: Seq<u8>) {
    lemma_first_sep_bounds(s, 0, 0);
}

/// The input with leading whitespace removed.
pub open spec fn trim_start(s: Seq<u8>) -> Seq<u8>
    decreases s.len(),
{
    if s.len() > 0 && is_ws(s[0]) {
        trim_start(s.drop_first())
    } else {
        s
    }
}

/// The input with trailing whitespace removed.
pub open spec fn trim_end(s: Seq<u8>) -> Seq<u8>
    decreases s.len(),
{
    if s.len() > 0 && is_ws(s.last()) {
        trim_end(s.drop_last())
    } else {
        s
    }
}

/// The input with surrounding whitespace removed.
pub open spec fn trim(s: Seq<u8>) -> Seq<u8> {
    trim_end(trim_start(s))
}

/// Whether a trimmed statement is the `return` form: the keyword `return`
/// not continued by an identifier byte.
pub open spec fn is_return_stmt(w: Seq<u8>) -> bool {
    &&& w.len() >= 6
    &&& w[0] == 114
    &&& w[1] == 101
    &&& w[2] == 116
    &&& w[3] == 117
    &&& w[4] == 114
    &&& w[5] == 110
    &&& (w.len() == 6 || !is_ident_char(w[6]))
}

/// The index of the first top-level binder arrow `<-` (two adjacent bytes)
/// at or after `i`, starting from bracket depth `d`, or the length where
/// there is none.
pub open spec fn first_arrow_from(s: Seq<u8>, i: int, d: int) -> int
    decreases s.len() - i,
{
    if i < 0 || i >= s.len() {
        s.len() as int
    } else if d == 0 && s[i] == 60 && i + 1 < s.len() && s[i + 1] == 45 {
        i
    } else {
        first_arrow_from(s, i + 1, depth_step(s[i], d))
    }
}

/// The first top-level arrow lies between `i` and the end; where it is not
/// the end, both arrow bytes are in range.
pub proof fn lemma_first_arrow_bounds(s: Seq<u8>, i: int, d: int)
    requires
        0 <= i <= s.len(),
    ensures
        i <= first_arrow_from(s, i, d) <= s.len(),
        first_arrow_from(s, i, d) < s.len() ==> {
            let j = first_arrow_from(s, i, d);
            s[j] == 60 && j + 1 < s.len() && s[j + 1] == 45
        },
    decreases s.len() - i,
{
    if i < s.len() && !(d == 0 && s[i] == 60 && i + 1 < s.len() && s[i + 1] == 45) {
        lemma_first_arrow_bounds(s, i + 1, depth_step(s[i], d));
    }
}

/// The classification of one terminated statement, tried in priority order:
/// the `return` form, the wildcard binder, the named binder, and the plain
/// expression as the fallback — also for a binder arrow whose left-hand
/// side is neither the wildcard nor an identifier.
pub open spec fn classify(t: Seq<u8>) -> StmtView {
    let w = trim(t);
    if is_return_stmt(w) {
        StmtView::Ret { expr: trim(w.skip(6)) }
    } else {
        let j = first_arrow_from(w, 0, 0);
        if j < w.len() {
            let lhs = trim(w.take(j));
            let rhs = trim(w.skip(j + 2));
            if lhs == seq![95u8] {
                StmtView::Discard { expr: rhs }
            } else if is_ident(lhs) {
                StmtView::Bind { name: lhs, expr: rhs }
            } else {
                StmtView::Discard { expr: w }
            }
        } else {
            StmtView::Discard { expr: w }
        }
    }
}

/// The classification of every segment of a sequence, in order.
pub open spec fn classify_all(q: Seq<Seq<u8>>) -> Seq<StmtView> {
    q.map_values(|t: Seq<u8>| classify(t))
}

/// The statements of a raw block: every segment before the last classified
/// as a terminated statement, then the trimmed last segment as the tail
/// expression — absent where it is only whitespace.
pub open spec fn block_stmts(s: Seq<u8>) -> Seq<StmtView> {
    let segs = split_segments(s);
    let bound = classify_all(segs.drop_last());
    let tail = trim(segs.last());
    if tail.len() == 0 {
        bound
    } else {
        bound + seq![StmtView::Tail { expr: tail }]
    }
}

/// The views of a sequence of owned segments.
pub open spec fn segment_views(q: Seq<Vec<u8>>) -> Seq<Seq<u8>> {
    q.map_values(|v: Vec<u8>| v@)
}

/// Whether one byte is whitespace.
fn ws_byte(b: u8) -> (r: bool)
    ensures
        r == is_ws(b),
{
    b == 32 || b == 9 || b == 10 || b == 13
}

/// Whether one byte may start an identifier.
fn ident_start_byte(b: u8) -> (r: bool)
    ensures
        r == is_ident_start(b),
{
    b == 95 || (65 <= b && b <= 90) || (97 <= b && b <= 122)
}

/// Whether one byte may continue an identifier.
fn ident_char_byte(b: u8) -> (r: bool)
    ensures
        r == is_ident_char(b),
{
    ident_start_byte(b) || (48 <= b && b <= 57)
}

/// Find the first top-level `;` at or after `i`.
fn find_sep(s: &[u8], i: usize, d: i128) -> (r: usize)
    requires
        i <= s@.len(),
        -(i as int) <= d as int <= i as int,
    ensures
        r == first_sep_from(s@, i as int, d as int),
    decreases s@.len() - i,
{
    if i >= s.len() {
        s.len()
    } else {
        let b = s[i];
        if b == 59 && d == 0 {
            i
        } else {
            let d2: i128 = if b == 40 || b == 91 || b == 123 {
                d + 1
            } else if b == 41 || b == 93 || b == 125 {
                d - 1
            } else {
                d
            };
            find_sep(s, i + 1, d2)
        }
    }
}

/// Find the first top-level `<-` at or after `i`.
fn find_arrow(s: &[u8], i: usize, d: i128) -> (r: usize)
    requires
        i <= s@.len(),
        -(i as int) <= d as int <= i as int,
    ensures
        r == first_arrow_from(s@, i as int, d as int),
    decreases s@.len() - i,
{
    if i >= s.len() {
        s.len()
    } else {
        let b = s[i];
        if d == 0 && b == 60 && i + 1 < s.len() && s[i + 1] == 45 {
            i
        } else {
            let d2: i128 = if b == 40 || b == 91 || b == 123 {
                d + 1
            } else if b == 41 || b == 93 || b == 125 {
                d - 1
            } else {
                d
            };
            find_arrow(s, i + 1, d2)
        }
    }
}

/// Split a raw block into its segments.
pub fn split_block(s: &[u8]) -> (r: Vec<Vec<u8>>)
    ensures
        segment_views(r@) == split_segments(s@),
    decreases s@.len(),
{
    let j = find_sep(s, 0, 0);
    proof {
        lemma_first_sep_bounds(s@, 0, 0);
    }
    if j >= s.len() {
        let mut out: Vec<Vec<u8>> = Vec::new();
        out.push(slice_to_vec(s));
        proof {
            assert(segment_views(out@) =~= seq![s@]);
        }
        out
    } else {
        let head = slice_to_vec(slice_subrange(s, 0, j));
        let mut rest = split_block(slice_subrange(s, j + 1, s.len()));
        let mut out: Vec<Vec<u8>> = Vec::new();
        out.push(head);
        out.append(&mut rest);
        proof {
            assert(s@.subrange(0, j as int) =~= s@.take(j as int));
            assert(s@.subrange(j + 1, s@.len() as int) =~= s@.skip(j + 1));
            assert(segment_views(out@) =~= split_segments(s@));
        }
        out
    }
}

/// Remove leading whitespace.
fn trim_start_slice<'a>(s: &'a [u8]) -> (r: &'a [u8])
    ensures
        r@ == trim_start(s@),
    decreases s@.len(),
{
    if s.len() > 0 && ws_byte(s[0]) {
        trim_start_slice(slice_subrange(s, 1, s.len()))
    } else {
        s
    }
}

/// Remove trailing whitespace.
fn trim_end_slice<'a>(s: &'a [u8]) -> (r: &'a [u8])
    ensures
        r@ == trim_end(s@),
    decreases s@.len(),
{
    if s.len() > 0 && ws_byte(s[s.len() - 1]) {
        proof {
            assert(s@.subrange(0, s@.len() - 1) =~= s@.drop_last());
        }
        trim_end_slice(slice_subrange(s, 0, s.len() - 1))
    } else {
        s
    }
}

/// Remove surrounding whitespace.
fn trim_slice<'a>(s: &'a [u8]) -> (r: &'a [u8])
    ensures
        r@ == trim(s@),
{
    trim_end_slice(trim_start_slice(s))
}

/// Whether a trimmed statement is the `return` form.
fn return_stmt(w: &[u8]) -> (r: bool)
    ensures
        r == is_return_stmt(w@),
{
    w.len() >= 6 && w[0] == 114 && w[1] == 101 && w[2] == 116 && w[3] == 117 && w[4] == 114
        && w[5] == 110 && (w.len() == 6 || !ident_char_byte(w[6]))
}

/// Whether a byte string is a non-empty ASCII identifier.
fn ident_bytes(s: &[u8]) -> (r: bool)
    ensures
        r == is_ident(s@),
{
    if s.len() == 0 {
        return false;
    }
    if !ident_start_byte(s[0]) {
        return false;
    }
    let mut i: usize = 1;
    while i < s.len()
        invariant
            1 <= i <= s@.len(),
            is_ident_start(s@[0]),
            forall|k: int| 0 <= k < i ==> is_ident_char(#[trigger] s@[k]),
        decreases s@.len() - i,
    {
        if !ident_char_byte(s[i]) {
            return false;
        }
        i = i + 1;
    }
    true
}

/// Classify one terminated statement.
pub fn classify_stmt(t: &[u8]) -> (r: Stmt)
    ensures
        r@ == classify(t@),
{
    let w = trim_slice(t);
    if return_stmt(w) {
        Stmt::Ret { expr: slice_to_vec(trim_slice(slice_subrange(w, 6, w.len()))) }
    } else {
        let j = find_arrow(w, 0, 0);
        proof {
            lemma_first_arrow_bounds(w@, 0, 0);
        }
        if j < w.len() {
            let lhs = trim_slice(slice_subrange(w, 0, j));
            let rhs = trim_slice(slice_subrange(w, j + 2, w.len()));
            proof {
                assert(w@.subrange(0, j as int) =~= w@.take(j as int));
                assert(w@.subrange(j + 2, w@.len() as int) =~= w@.skip(j + 2));
            }
            if lhs.len() == 1 && lhs[0] == 95 {
                proof {
                    assert(lhs@ =~= seq![95u8]);
                }
                Stmt::Discard { expr: slice_to_vec(rhs) }
            } else if ident_bytes(lhs) {
                proof {
                    assert(lhs@ != seq![95u8]);
                }
                Stmt::Bind { name: slice_to_vec(lhs), expr: slice_to_vec(rhs) }
            } else {
                Stmt::Discard { expr: slice_to_vec(w) }
            }
        } else {
            Stmt::Discard { expr: slice_to_vec(w) }
        }
    }
}

/// Every block has at least one segment.
pub proof fn lemma_split_nonempty(s: Seq<u8>)
    ensures
        split_segments(s).len() >= 1,
{
}

/// Parse a raw block into its statements.
pub fn parse_block(src: &[u8]) -> (r: Vec<Stmt>)
    ensures
        block_view(r@) == block_stmts(src@),
{
    let segs = split_block(src);
    proof {
        lemma_split_nonempty(src@);
    }
    let ghost segv = segment_views(segs@);
    let n = segs.len();
    let mut out: Vec<Stmt> = Vec::new();
    let mut i: usize = 0;
    while i < n - 1
        invariant
            n == segs@.len(),
            n >= 1,
            0 <= i <= n - 1,
            segv == segment_views(segs@),
            segv == split_segments(src@),
            block_view(out@) == classify_all(segv.take(i as int)),
        decreases n - i,
    {
        let st = classify_stmt(segs[i].as_slice());
        let ghost out0 = out@;
        proof {
            assert(segs@[i as int]@ == segv[i as int]);
            assert(st@ == classify(segv[i as int]));
        }
        out.push(st);
        proof {
            assert(block_view(out0).len() == out0.len());
            assert(out0.len() == i as int);
            assert(out@ == out0.push(st));
            assert forall|k: int| 0 <= k < i + 1 implies #[trigger] block_view(out@)[k]
                == classify(segv[k]) by {
                assert(block_view(out@)[k] == out@[k]@);
                if k < i {
                    assert(out@[k] == out0[k]);
                    assert(block_view(out0)[k] == out0[k]@);
                    assert(block_view(out0)[k] == classify_all(segv.take(i as int))[k]);
                    assert(classify_all(segv.take(i as int))[k] == classify(
                        segv.take(i as int)[k],
                    ));
                    assert(segv.take(i as int)[k] == segv[k]);
                } else {
                    assert(out@[k] == st);
                }
            }
            assert forall|k: int| 0 <= k < i + 1 implies #[trigger] classify_all(
                segv.take(i as int + 1),
            )[k] == classify(segv[k]) by {
                assert(segv.take(i as int + 1)[k] == segv[k]);
            }
            assert(block_view(out@) =~= classify_all(segv.take(i as int + 1)));
        }
        i = i + 1;
    }
    proof {
        assert(segv.take(n - 1) =~= segv.drop_last());
    }
    let tailseg = trim_slice(segs[n - 1].as_slice());
    if tailseg.len() > 0 {
        out.push(Stmt::Tail { expr: slice_to_vec(tailseg) });
        proof {
            assert(block_view(out@) =~= block_stmts(src@));
        }
    } else {
        proof {
            assert(block_view(out@) =~= block_stmts(src@));
        }
    }
    out
}

/// Trimming the end of a concatenation: where the right part does not trim
/// away entirely, the left part is untouched; where it does, only the left
/// part remains to trim.
proof fn lemma_trim_end_concat(p: Seq<u8>, e: Seq<u8>)
    ensures
        trim_end(p + e) == if trim_end(e).len() > 0 {
            p + trim_end(e)
        } else {
            trim_end(p)
        },
    decreases e.len(),
{
    if e.len() == 0 {
        assert(p + e =~= p);
    } else if is_ws(e.last()) {
        assert((p + e).last() == e.last());
        assert((p + e).drop_last() =~= p + e.drop_last());
        lemma_trim_end_concat(p, e.drop_last());
    } else {
        assert((p + e).last() == e.last());
    }
}

/// A byte string starting with non-whitespace keeps its first byte under
/// end trimming.
proof fn lemma_trim_end_first(s: Seq<u8>)
    requires
        s.len() > 0,
        !is_ws(s[0]),
    ensures
        trim_end(s).len() > 0,
        trim_end(s)[0] == s[0],
    decreases s.len(),
{
    if is_ws(s.last()) {
        assert(s.drop_last()[0] == s[0]);
        lemma_trim_end_first(s.drop_last());
    }
}

/// A non-empty end-trimmed byte string does not end in whitespace.
proof fn lemma_trim_end_last(s: Seq<u8>)
    ensures
        trim_end(s).len() > 0 ==> !is_ws(trim_end(s).last()),
    decreases s.len(),
{
    if s.len() > 0 && is_ws(s.last()) {
        lemma_trim_end_last(s.drop_last());
    }
}

/// Trimming commutes: stripping leading then trailing whitespace equals
/// stripping trailing then leading whitespace.
proof fn lemma_trim_commute(s: Seq<u8>)
    ensures
        trim_start(trim_end(s)) == trim_end(trim_start(s)),
    decreases s.len(),
{
    if s.len() == 0 {
    } else if !is_ws(s[0]) {
        lemma_trim_end_first(s);
        assert(trim_start(s) == s);
        assert(trim_start(trim_end(s)) == trim_end(s));
    } else {
        let rest = s.drop_first();
        assert(s =~= seq![s[0]] + rest);
        lemma_trim_end_concat(seq![s[0]], rest);
        lemma_trim_commute(rest);
        assert(trim_start(s) == trim_start(rest));
        if trim_end(rest).len() > 0 {
            assert(trim_end(s) == seq![s[0]] + trim_end(rest));
            assert(trim_end(s)[0] == s[0]);
            assert(trim_end(s).drop_first() =~= trim_end(rest));
            assert(trim_start(trim_end(s)) == trim_start(trim_end(rest)));
        } else {
            assert(seq![s[0]].last() == s[0]);
            assert(seq![s[0]].drop_last() =~= Seq::<u8>::empty());
            assert(trim_end(Seq::<u8>::empty()) =~= Seq::<u8>::empty());
            assert(trim_end(seq![s[0]]) =~= Seq::<u8>::empty());
            assert(trim_end(s).len() == 0);
        }
    }
}

/// The wildcard binder prefix turns any right-hand side into the matching
/// discarding statement.
proof fn lemma_wildcard_prefix(e: Seq<u8>)
    ensures
        classify(seq![95u8, 32u8, 60u8, 45u8, 32u8] + e) == (StmtView::Discard {
            expr: trim(e),
        }),
{
    let p = seq![95u8, 32u8, 60u8, 45u8, 32u8];
    let s = p + e;
    assert(s[0] == 95 && s[1] == 32 && s[2] == 60 && s[3] == 45 && s[4] == 32);
    assert(trim_start(s) == s);
    lemma_trim_end_concat(p, e);
    lemma_trim_commute(e);
    let w = trim(s);
    if trim_end(e).len() > 0 {
        let t = trim_end(e);
        assert(w == p + t);
        assert(w[0] == 95 && w[1] == 32 && w[2] == 60 && w[3] == 45);
        assert(w.len() >= 6);
        assert(!is_return_stmt(w));
        assert(first_arrow_from(w, 0, 0) == first_arrow_from(w, 1, 0));
        assert(first_arrow_from(w, 1, 0) == first_arrow_from(w, 2, 0));
        assert(first_arrow_from(w, 2, 0) == 2);
        assert(w.take(2) =~= seq![95u8, 32u8]);
        assert(trim_start(w.take(2)) == w.take(2));
        assert(w.take(2).last() == 32);
        assert(w.take(2).drop_last() =~= seq![95u8]);
        assert(trim_end(seq![95u8]) == seq![95u8]);
        assert(trim_end(w.take(2)) == trim_end(w.take(2).drop_last()));
        assert(trim(w.take(2)) == seq![95u8]);
        assert(w.skip(4) =~= seq![32u8] + t);
        assert(w.skip(4).drop_first() =~= t);
        assert(trim_start(w.skip(4)) == trim_start(t));
        assert(trim(w.skip(4)) == trim_end(trim_start(t)));
        assert(trim_end(trim_start(t)) == trim_start(trim_end(t))) by {
            lemma_trim_commute(t);
        }
        assert(trim_end(t) == t) by {
            lemma_trim_end_last(e);
        }
        assert(trim(w.skip(4)) == trim_start(trim_end(e)));
        assert(trim(w.skip(4)) == trim(e));
    } else {
        assert(w == trim_end(p));
        assert(p.last() == 32);
        assert(p.drop_last() =~= seq![95u8, 32u8, 60u8, 45u8]);
        assert(trim_end(p) == trim_end(p.drop_last()));
        assert(p.drop_last().last() == 45);
        assert(trim_end(p.drop_last()) == p.drop_last());
        assert(w =~= seq![95u8, 32u8, 60u8, 45u8]);
        assert(!is_return_stmt(w));
        assert(first_arrow_from(w, 0, 0) == first_arrow_from(w, 1, 0));
        assert(first_arrow_from(w, 1, 0) == first_arrow_from(w, 2, 0));
        assert(first_arrow_from(w, 2, 0) == 2);
        assert(w.take(2) =~= seq![95u8, 32u8]);
        assert(trim_start(w.take(2)) == w.take(2));
        assert(w.take(2).last() == 32);
        assert(w.take(2).drop_last() =~= seq![95u8]);
        assert(trim_end(seq![95u8]) == seq![95u8]);
        assert(trim_end(w.take(2)) == trim_end(w.take(2).drop_last()));
        assert(trim(w.take(2)) == seq![95u8]);
        assert(w.skip(4) =~= Seq::<u8>::empty());
        assert(trim_start(w.skip(4)) =~= Seq::<u8>::empty());
        assert(trim(w.skip(4)) =~= Seq::<u8>::empty());
        assert(trim(e) == trim_start(trim_end(e)));
        assert(trim_end(e).len() == 0);
        assert(trim(e) =~= Seq::<u8>::empty());
    }
}

/// Discard equivalence: a terminated statement that classifies as a plain
/// expression classifies exactly as the same statement with the explicit
/// wildcard binder in front, so `_ <- expr;` and `expr;` expand to
/// structurally identical output.
pub proof fn lemma_discard_equivalence(e: Seq<u8>)
    requires
        classify(e) == (StmtView::Discard { expr: trim(e) }),
    ensures
        classify(seq![95u8, 32u8, 60u8, 45u8, 32u8] + e) == classify(e),
{
    lemma_wildcard_prefix(e);
}

/// Parse a raw block and expand it into the rewritten expression tree, or
/// report exactly why no rule matches.
pub fn expand_block(src: &[u8]) -> (r: Result<Code, ExpandError>)
    ensures
        r is Ok <==> well_formed(block_stmts(src@)),
        r matches Ok(c) ==> Some(c@) == spec_expand(block_stmts(src@)),
        r matches Err(e) ==> e == spec_reject(block_stmts(src@)),
{
    expand(parse_block(src))
}

} // verus!
