//! Diagnostics: byte-ranged, never fatal.

use vstd::prelude::*;

verus! {

/// What a diagnostic complains about.
#[derive(Clone, Copy, Debug, PartialEq, Eq, Structural, Hash)]
pub enum SyntaxErrorKind {
    /// An item name was not followed by `(`.
    ExpectedParamList,
    /// A parameter list was not followed by `{`.
    ExpectedBlock,
    /// A parameter list was not closed by `)`.
    ExpectedRParen,
    /// A body was not closed by `}`.
    ExpectedRCurly,
    /// An operator or `(` was not followed by an operand.
    ExpectedExpr,
    /// A token that no construct could use.
    UnexpectedToken,
    /// A string literal without a closing quote.
    UnterminatedString,
    /// An integer literal with too many digits.
    IntTooLarge,
}

/// A diagnostic: byte range plus kind.  `start == end` marks a point, for
/// instance the position where a missing delimiter was expected.
#[derive(Clone, Copy, Debug, PartialEq, Eq, Structural)]
pub struct SyntaxError {
    /// Start byte offset.
    pub start: usize,
    /// End byte offset (exclusive); equal to `start` for a point diagnostic.
    pub end: usize,
    /// What went wrong.
    pub kind: SyntaxErrorKind,
}

impl SyntaxError {
    /// A short description of what went wrong.
    pub fn message(&self) -> (r: &'static str)
        ensures
            self.kind == SyntaxErrorKind::ExpectedParamList ==> r@ == "expected a parameter list"@,
            self.kind == SyntaxErrorKind::ExpectedBlock ==> r@ == "expected a body"@,
            self.kind == SyntaxErrorKind::ExpectedRParen ==> r@ == "expected `)`"@,
            self.kind == SyntaxErrorKind::ExpectedRCurly ==> r@ == "expected `}`"@,
            self.kind == SyntaxErrorKind::ExpectedExpr ==> r@ == "expected an expression"@,
            self.kind == SyntaxErrorKind::UnexpectedToken ==> r@ == "unexpected token"@,
            self.kind == SyntaxErrorKind::UnterminatedString ==> r@
                == "unterminated string literal"@,
            self.kind == SyntaxErrorKind::IntTooLarge ==> r@ == "integer literal is too large"@,
    {
        match self.kind {
            SyntaxErrorKind::ExpectedParamList => "expected a parameter list",
            SyntaxErrorKind::ExpectedBlock => "expected a body",
            SyntaxErrorKind::ExpectedRParen => "expected `)`",
            SyntaxErrorKind::ExpectedRCurly => "expected `}`",
            SyntaxErrorKind::ExpectedExpr => "expected an expression",
            SyntaxErrorKind::UnexpectedToken => "unexpected token",
            SyntaxErrorKind::UnterminatedString => "unterminated string literal",
            SyntaxErrorKind::IntTooLarge => "integer literal is too large",
        }
    }
}

/// The mathematical counterpart of [`SyntaxError`], with unbounded offsets.
pub struct ErrM {
    /// Start byte offset.
    pub start: int,
    /// End byte offset (exclusive).
    pub end: int,
    /// What went wrong.
    pub kind: SyntaxErrorKind,
}

/// The model of a `Vec<SyntaxError>`.
pub open spec fn errs_model(s: Seq<SyntaxError>) -> Seq<ErrM> {
    s.map(|i: int, e: SyntaxError| ErrM { start: e.start as int, end: e.end as int, kind: e.kind })
}

/// Sorted by ascending start offset.
pub open spec fn errs_sorted(s: Seq<ErrM>) -> bool {
    forall|i: int, j: int| 0 <= i < j < s.len() ==> #[trigger] s[i].start <= #[trigger] s[j].start
}

/// Every start offset is at least `lo`.
pub open spec fn errs_lb(s: Seq<ErrM>, lo: int) -> bool {
    forall|i: int| 0 <= i < s.len() ==> lo <= #[trigger] s[i].start
}

/// Stable merge of two diagnostic lists by ascending start offset; entries
/// of the first list go first on ties.
pub open spec fn merge_errs(a: Seq<ErrM>, b: Seq<ErrM>) -> Seq<ErrM>
    decreases a.len() + b.len(),
{
    if a.len() == 0 {
        b
    } else if b.len() == 0 {
        a
    } else if a[0].start <= b[0].start {
        seq![a[0]] + merge_errs(a.skip(1), b)
    } else {
        seq![b[0]] + merge_errs(a, b.skip(1))
    }
}

/// Merging keeps any common lower bound.
pub proof fn lemma_merge_lb(a: Seq<ErrM>, b: Seq<ErrM>, lo: int)
    requires
        errs_lb(a, lo),
        errs_lb(b, lo),
    ensures
        errs_lb(merge_errs(a, b), lo),
    decreases a.len() + b.len(),
{
    if a.len() == 0 || b.len() == 0 {
    } else if a[0].start <= b[0].start {
        assert(errs_lb(a.skip(1), lo));
        lemma_merge_lb(a.skip(1), b, lo);
    } else {
        assert(errs_lb(b.skip(1), lo));
        lemma_merge_lb(a, b.skip(1), lo);
    }
}

/// Merging two sorted lists gives a sorted list.
pub proof fn lemma_merge_sorted(a: Seq<ErrM>, b: Seq<ErrM>)
    requires
        errs_sorted(a),
        errs_sorted(b),
    ensures
        errs_sorted(merge_errs(a, b)),
    decreases a.len() + b.len(),
{
    if a.len() == 0 || b.len() == 0 {
    } else if a[0].start <= b[0].start {
        assert(errs_sorted(a.skip(1)));
        lemma_merge_sorted(a.skip(1), b);
        assert(errs_lb(a.skip(1), a[0].start));
        assert(errs_lb(b, a[0].start));
        lemma_merge_lb(a.skip(1), b, a[0].start);
        let m = merge_errs(a, b);
        let rest = merge_errs(a.skip(1), b);
        assert forall|i: int, j: int| 0 <= i < j < m.len() implies #[trigger] m[i].start
            <= #[trigger] m[j].start by {
            if i > 0 {
                assert(m[i] == rest[i - 1] && m[j] == rest[j - 1]);
            } else {
                assert(m[j] == rest[j - 1]);
            }
        }
    } else {
        assert(errs_sorted(b.skip(1)));
        lemma_merge_sorted(a, b.skip(1));
        assert(errs_lb(b.skip(1), b[0].start));
        assert(errs_lb(a, b[0].start));
        lemma_merge_lb(a, b.skip(1), b[0].start);
        let m = merge_errs(a, b);
        let rest = merge_errs(a, b.skip(1));
        assert forall|i: int, j: int| 0 <= i < j < m.len() implies #[trigger] m[i].start
            <= #[trigger] m[j].start by {
            if i > 0 {
                assert(m[i] == rest[i - 1] && m[j] == rest[j - 1]);
            } else {
                assert(m[j] == rest[j - 1]);
            }
        }
    }
}

/// Executable merge of two diagnostic lists, already sorted by start offset.
pub(crate) fn merge_sorted_errs(a: &Vec<SyntaxError>, b: &Vec<SyntaxError>) -> (r: Vec<
    SyntaxError,
>)
    ensures
        errs_model(r@) == merge_errs(errs_model(a@), errs_model(b@)),
{
    let ghost am = errs_model(a@);
    let ghost bm = errs_model(b@);
    let mut r: Vec<SyntaxError> = Vec::new();
    let mut i: usize = 0;
    let mut j: usize = 0;
    proof {
        assert(am.skip(0) =~= am);
        assert(bm.skip(0) =~= bm);
        assert(errs_model(r@) + merge_errs(am, bm) =~= merge_errs(am, bm));
    }
    while i < a.len() || j < b.len()
        invariant
            i <= a@.len(),
            j <= b@.len(),
            am.len() == a@.len(),
            bm.len() == b@.len(),
            am == errs_model(a@),
            bm == errs_model(b@),
            merge_errs(am, bm) =~= errs_model(r@) + merge_errs(
                am.skip(i as int),
                bm.skip(j as int),
            ),
        decreases a@.len() - i + b@.len() - j,
    {
        let ghost ra = am.skip(i as int);
        let ghost rb = bm.skip(j as int);
        let take_a = if i < a.len() && j < b.len() {
            a[i].start <= b[j].start
        } else {
            i < a.len()
        };
        if take_a {
            proof {
                assert(i < a@.len());
                assert(ra.len() > 0);
            }
            let e = a[i];
            proof {
                assert(ra[0] == am[i as int]);
                assert(am[i as int] == ErrM {
                    start: a@[i as int].start as int,
                    end: a@[i as int].end as int,
                    kind: a@[i as int].kind,
                });
                if j < b@.len() {
                    assert(rb[0] == bm[j as int]);
                    assert(bm[j as int] == ErrM {
                        start: b@[j as int].start as int,
                        end: b@[j as int].end as int,
                        kind: b@[j as int].kind,
                    });
                }
                assert(merge_errs(ra, rb) =~= seq![ra[0]] + merge_errs(ra.skip(1), rb));
                assert(ra.skip(1) =~= am.skip(i + 1 as int));
                assert(errs_model(r@.push(e)) =~= errs_model(r@) + seq![ra[0]]);
            }
            r.push(e);
            i = i + 1;
        } else {
            proof {
                assert(j < b@.len());
                assert(rb.len() > 0);
            }
            let e = b[j];
            proof {
                assert(rb[0] == bm[j as int]);
                assert(bm[j as int] == ErrM {
                    start: b@[j as int].start as int,
                    end: b@[j as int].end as int,
                    kind: b@[j as int].kind,
                });
                if i < a@.len() {
                    assert(ra[0] == am[i as int]);
                    assert(am[i as int] == ErrM {
                        start: a@[i as int].start as int,
                        end: a@[i as int].end as int,
                        kind: a@[i as int].kind,
                    });
                }
                assert(merge_errs(ra, rb) =~= seq![rb[0]] + merge_errs(ra, rb.skip(1)));
                assert(rb.skip(1) =~= bm.skip(j + 1 as int));
                assert(errs_model(r@.push(e)) =~= errs_model(r@) + seq![rb[0]]);
            }
            r.push(e);
            j = j + 1;
        }
    }
    proof {
        assert(merge_errs(am.skip(i as int), bm.skip(j as int)) =~= Seq::<ErrM>::empty());
        assert(errs_model(r@) =~= merge_errs(am, bm));
    }
    r
}

} // verus!
