//! Post-parse validation: literal well-formedness checks that the grammar
//! itself does not enforce.
//!
//! The validator walks the token stream once, in offset order, and emits
//! diagnostics for unterminated string literals and for integer literals
//! with more digits than any supported value has.  It never changes the
//! tree.

use vstd::prelude::*;

use crate::errors::ErrM;
use crate::errors::SyntaxError;
use crate::errors::SyntaxErrorKind;
use crate::errors::errs_model;
use crate::errors::errs_lb;
use crate::errors::errs_sorted;
use crate::kinds::SyntaxKind;
use crate::lexer::TokM;
use crate::lexer::Token;
use crate::lexer::scan_str;
use crate::lexer::str_scan;
use crate::lexer::toks_len_from;
use crate::lexer::toks_model;
use crate::lexer::lemma_toks_len_from_mono;

verus! {

/// The largest number of digits an integer literal may have.
pub const MAX_INT_DIGITS: usize = 20;

/// The validation diagnostics for the tokens from `ti` on, where the token
/// `ti` starts at byte offset `off`.
pub open spec fn vdiags(toks: Seq<TokM>, text: Seq<u8>, ti: int, off: int) -> Seq<ErrM>
    decreases toks.len() - ti,
{
    if !(0 <= ti < toks.len()) {
        Seq::empty()
    } else {
        let t = toks[ti];
        let rest = vdiags(toks, text, ti + 1, off + t.len);
        if t.kind == SyntaxKind::Str && !scan_str(text, off + 1).terminated {
            seq![ErrM { start: off, end: off + t.len, kind: SyntaxErrorKind::UnterminatedString }]
                + rest
        } else if t.kind == SyntaxKind::IntNumber && t.len > MAX_INT_DIGITS {
            seq![ErrM { start: off, end: off + t.len, kind: SyntaxErrorKind::IntTooLarge }] + rest
        } else {
            rest
        }
    }
}

/// Validation diagnostics come out sorted by ascending start offset, and
/// never before the offset the walk started at.
pub proof fn lemma_vdiags_sorted(toks: Seq<TokM>, text: Seq<u8>, ti: int, off: int)
    requires
        forall|k: int| 0 <= k < toks.len() ==> 0 <= #[trigger] toks[k].len,
    ensures
        errs_sorted(vdiags(toks, text, ti, off)),
        errs_lb(vdiags(toks, text, ti, off), off),
    decreases toks.len() - ti,
{
    if 0 <= ti < toks.len() {
        let t = toks[ti];
        lemma_vdiags_sorted(toks, text, ti + 1, off + t.len);
    }
}

/// Walk the token stream and report malformed literals.
pub(crate) fn validate(tokens: &Vec<Token>, text: &[u8]) -> (r: Vec<SyntaxError>)
    requires
        toks_len_from(toks_model(tokens@), 0) <= text@.len(),
    ensures
        errs_model(r@) == vdiags(toks_model(tokens@), text@, 0, 0),
{
    let ghost toks = toks_model(tokens@);
    let text_n: usize = text.len();
    let mut r: Vec<SyntaxError> = Vec::new();
    let mut ti: usize = 0;
    let mut off: usize = 0;
    proof {
        assert(toks.len() == tokens@.len());
        lemma_toks_len_from_mono(toks, 0);
        assert(errs_model(r@) + vdiags(toks, text@, 0, 0) =~= vdiags(toks, text@, 0, 0));
    }
    while ti < tokens.len()
        invariant
            ti <= tokens@.len(),
            toks == toks_model(tokens@),
            toks.len() == tokens@.len(),
            text_n == text@.len(),
            toks_len_from(toks, 0) <= text_n,
            off as int == toks_len_from(toks, 0) - toks_len_from(toks, ti as int),
            vdiags(toks, text@, 0, 0) =~= errs_model(r@) + vdiags(toks, text@, ti as int, off as int),
        decreases tokens@.len() - ti,
    {
        let t = tokens[ti];
        proof {
            assert(toks[ti as int] == TokM { kind: t.kind, len: t.len as int });
            lemma_toks_len_from_mono(toks, ti as int);
            lemma_toks_len_from_mono(toks, ti + 1 as int);
            assert(toks_len_from(toks, ti as int) == t.len + toks_len_from(toks, ti + 1 as int));
        }
        let ghost pre = errs_model(r@);
        let is_bad_str = if t.kind == SyntaxKind::Str {
            if off < text.len() {
                let (_end, terminated) = str_scan(text, off + 1);
                !terminated
            } else {
                true
            }
        } else {
            false
        };
        if is_bad_str {
            let e = SyntaxError {
                start: off,
                end: off + t.len,
                kind: SyntaxErrorKind::UnterminatedString,
            };
            proof {
                assert(errs_model(r@.push(e)) =~= pre + seq![ErrM {
                    start: off as int,
                    end: off as int + t.len as int,
                    kind: SyntaxErrorKind::UnterminatedString,
                }]);
            }
            r.push(e);
        } else if t.kind == SyntaxKind::IntNumber && t.len > MAX_INT_DIGITS {
            let e = SyntaxError { start: off, end: off + t.len, kind: SyntaxErrorKind::IntTooLarge };
            proof {
                assert(errs_model(r@.push(e)) =~= pre + seq![ErrM {
                    start: off as int,
                    end: off as int + t.len as int,
                    kind: SyntaxErrorKind::IntTooLarge,
                }]);
            }
            r.push(e);
        }
        off = off + t.len;
        ti = ti + 1;
        proof {
            assert(vdiags(toks, text@, 0, 0) =~= errs_model(r@) + vdiags(
                toks,
                text@,
                ti as int,
                off as int,
            ));
        }
    }
    proof {
        assert(vdiags(toks, text@, ti as int, off as int) =~= Seq::<ErrM>::empty());
        assert(errs_model(r@) =~= vdiags(toks, text@, 0, 0));
    }
    r
}

} // verus!
