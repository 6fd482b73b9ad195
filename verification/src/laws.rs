//! The crate's laws, stated over the mathematical models and proved once
//! and for all.  Each law backs a clause of some executable function's
//! contract, or relates several of them.

use vstd::prelude::*;

use crate::errors::errs_sorted;
use crate::kinds::SyntaxKind;
use crate::lexer::TokM;
use crate::lexer::kinds_of;
use crate::lexer::lemma_token_at_bounds;
use crate::lexer::lemma_tokenize_covers;
use crate::lexer::spec_tokenize;
use crate::lexer::spec_toks;
use crate::lexer::token_at;
use crate::lexer::toks_len;
use crate::lexer::toks_len_from;
use crate::tree::File;
use crate::tree::is_parse_of;
use crate::tree::lemma_perrs_sorted;
use crate::tree::spec_errors_of;
use crate::tree::spec_parse_errors;
use crate::tree::spec_validation;
use crate::errors::lemma_merge_sorted;
use crate::grammar::events_wf;
use crate::grammar::lemma_parse_consumes;
use crate::grammar::lemma_parse_well_nested;
use crate::grammar::root_events;
use crate::grammar::tok_count;
use crate::validation::lemma_vdiags_sorted;

verus! {

/// The concatenation of the token spans of `toks` from index `ti` on, where
/// token `ti` starts at byte offset `off` of `text`.
pub open spec fn toks_text(toks: Seq<TokM>, text: Seq<u8>, ti: int, off: int) -> Seq<u8>
    decreases toks.len() - ti,
{
    if !(0 <= ti < toks.len()) {
        Seq::empty()
    } else {
        let l = toks[ti].len;
        let piece = if 0 <= off && 0 <= l && off + l <= text.len() {
            text.subrange(off, off + l)
        } else {
            Seq::empty()
        };
        piece + toks_text(toks, text, ti + 1, off + l)
    }
}

/// Prepending a token shifts the concatenation index by one.
proof fn lemma_toks_text_shift(t: TokM, s: Seq<TokM>, text: Seq<u8>, ti: int, off: int)
    requires
        0 <= ti,
    ensures
        toks_text(seq![t] + s, text, ti + 1, off) == toks_text(s, text, ti, off),
    decreases s.len() - ti,
{
    if ti < s.len() {
        assert((seq![t] + s)[ti + 1] == s[ti]);
        lemma_toks_text_shift(t, s, text, ti + 1, off + s[ti].len);
    }
}

/// Round-trip, token level: concatenating the token spans of the suffix of
/// `text` starting at `pos` gives back exactly that suffix.
pub proof fn lemma_tokens_cover_suffix(text: Seq<u8>, pos: int)
    requires
        0 <= pos <= text.len(),
    ensures
        toks_text(spec_tokenize(text, pos), text, 0, pos) == text.skip(pos),
    decreases text.len() - pos,
{
    if pos >= text.len() {
        assert(toks_text(spec_tokenize(text, pos), text, 0, pos) =~= text.skip(pos));
    } else {
        lemma_token_at_bounds(text, pos);
        let t = token_at(text, pos);
        let l = t.len;
        let m = TokM { kind: t.kind, len: l };
        let rest = spec_tokenize(text, pos + l);
        let whole = spec_tokenize(text, pos);
        assert(whole == seq![m] + rest);
        lemma_tokens_cover_suffix(text, pos + l);
        lemma_toks_text_shift(m, rest, text, 0, pos + l);
        assert(whole[0] == m);
        assert(toks_text(whole, text, 0, pos) == text.subrange(pos, pos + l) + toks_text(
            rest,
            text,
            0,
            pos + l,
        ));
        assert(text.subrange(pos, pos + l) + text.skip(pos + l) =~= text.skip(pos));
    }
}

/// Round-trip: the token spans of a parse, concatenated in order,
/// reproduce the input byte for byte.  Together with `lemma_parse_consumes`
/// this says the tree's leaves spell the input exactly.
pub proof fn lemma_round_trip(text: Seq<u8>)
    ensures
        toks_text(spec_toks(text), text, 0, 0) == text,
{
    lemma_tokens_cover_suffix(text, 0);
    assert(text.skip(0) =~= text);
}

/// Progress: tokenizing any finite input terminates and produces a token
/// stream of total length exactly the input's, every token nonempty.
pub proof fn lemma_tokenize_progress(text: Seq<u8>)
    ensures
        toks_len(spec_toks(text)) == text.len(),
        forall|i: int|
            0 <= i < spec_toks(text).len() ==> 1 <= #[trigger] spec_toks(text)[i].len,
        spec_toks(text).len() <= text.len(),
{
    lemma_tokenize_covers(text, 0);
    lemma_count_le_len(spec_toks(text), 0);
}

/// A stream of nonempty tokens has no more tokens than bytes.
proof fn lemma_count_le_len(s: Seq<TokM>, i: int)
    requires
        0 <= i,
        forall|k: int| 0 <= k < s.len() ==> 1 <= #[trigger] s[k].len,
    ensures
        s.len() - i <= toks_len_from(s, i),
    decreases s.len() - i,
{
    if i < s.len() {
        lemma_count_le_len(s, i + 1);
    }
}

/// Losslessness of the tree: a parse's event log attaches exactly one leaf
/// per token, and the token spans, concatenated in leaf order, reproduce
/// the input byte for byte.
pub proof fn lemma_tree_lossless(text: Seq<u8>)
    ensures
        tok_count(root_events(kinds_of(spec_toks(text)))) == spec_toks(text).len(),
        toks_text(spec_toks(text), text, 0, 0) == text,
{
    lemma_parse_consumes(kinds_of(spec_toks(text)));
    assert(kinds_of(spec_toks(text)).len() == spec_toks(text).len());
    lemma_round_trip(text);
}

/// Stack discipline: the event log of any parse is well-nested — every
/// opened node is closed, and no close comes before its open — so the log
/// can always be replayed into a tree.
pub proof fn lemma_tree_well_nested(text: Seq<u8>)
    ensures
        events_wf(root_events(kinds_of(spec_toks(text)))),
{
    lemma_parse_well_nested(kinds_of(spec_toks(text)));
}

/// Diagnostics ordering: all diagnostics of any text, parse-time and
/// validation together, are sorted by ascending start offset.
pub proof fn lemma_errors_sorted(text: Seq<u8>)
    ensures
        errs_sorted(spec_errors_of(text)),
{
    let toks = spec_toks(text);
    lemma_tokenize_covers(text, 0);
    lemma_perrs_sorted(root_events(kinds_of(toks)), toks, 0, 0, 0);
    lemma_vdiags_sorted(toks, text, 0, 0);
    lemma_merge_sorted(spec_parse_errors(text), spec_validation(text));
}

/// Parsing is deterministic: two parses of the same text agree in text,
/// tokens, events and diagnostics.  With `reparse`'s contract this is
/// reparse equivalence: an edited tree is indistinguishable from a fresh
/// parse of the edited text, whichever path produced it.
pub proof fn lemma_parse_deterministic(a: File, b: File, text: Seq<u8>)
    requires
        is_parse_of(a, text),
        is_parse_of(b, text),
    ensures
        a.text_spec() == b.text_spec(),
        a.toks_spec() == b.toks_spec(),
        a.events_spec() == b.events_spec(),
        a.errs_spec() == b.errs_spec(),
{
}

} // verus!
