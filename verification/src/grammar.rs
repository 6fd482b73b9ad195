//! The grammar, as a mathematical model.
//!
//! A parse is a flat, well-nested event log: `Open(kind)` starts a node,
//! `Tok` attaches the next token of the stream to the current node, `Close`
//! finishes a node, `Error` records a diagnostic at the current position.
//! The grammar reads only token *kinds*; token lengths and texts play no
//! part in any decision.  That fact is what makes token-level incremental
//! reparsing sound, and it is enforced here by the type of the input.
//!
//! Recovery never fails: a token that fits nowhere is wrapped in an `Error`
//! node and skipped, and a missing delimiter closes the open node early, so
//! every recovery step consumes a token or closes a node, and parsing any
//! finite stream terminates.
//!
//! The executable twin of this module is `parser`; it is proved to produce
//! exactly these events.

use vstd::prelude::*;

use crate::errors::SyntaxErrorKind;
use crate::kinds::SyntaxKind;

verus! {

/// One entry of the event log.
#[derive(Clone, Copy, Debug, PartialEq, Eq, Structural)]
pub enum Event {
    /// Start a node of the given kind.
    Open(SyntaxKind),
    /// Attach the next token of the stream to the current node.
    Tok,
    /// Finish the current node.
    Close,
    /// Record a diagnostic at the current position.
    Error(SyntaxErrorKind),
}

/// Kinds that can start an expression atom.
pub open spec fn is_atom_start(k: SyntaxKind) -> bool {
    k == SyntaxKind::Ident || k == SyntaxKind::IntNumber || k == SyntaxKind::Str || k
        == SyntaxKind::LParen
}

/// Infix operator kinds.
pub open spec fn is_op(k: SyntaxKind) -> bool {
    k == SyntaxKind::Plus || k == SyntaxKind::Minus || k == SyntaxKind::Star
}

/// Clamp `p` into `[lo, hi]`.  Every position that feeds a recursive call is
/// clamped so that termination is structural; separate lemmas show that for
/// positions the grammar actually produces the clamp never moves anything.
pub open spec fn clamp_pos(p: int, lo: int, hi: int) -> int {
    if p < lo {
        lo
    } else if p > hi {
        hi
    } else {
        p
    }
}

/// Consume a run of trivia tokens, one `Tok` event each.
pub open spec fn p_trivia(ks: Seq<SyntaxKind>, pos: int) -> (Seq<Event>, int)
    decreases ks.len() - pos, 0int,
{
    if 0 <= pos < ks.len() && ks[pos].spec_is_trivia() {
        let (e, p) = p_trivia(ks, pos + 1);
        (seq![Event::Tok] + e, p)
    } else {
        (Seq::empty(), pos)
    }
}

/// An expression atom: literal, name, string, or parenthesized expression.
/// Only called where [`is_atom_start`] holds; anything else records an error
/// and consumes nothing (the caller recovers).
pub open spec fn p_atom(ks: Seq<SyntaxKind>, pos: int) -> (Seq<Event>, int)
    decreases ks.len() - pos, 2int,
{
    if !(0 <= pos < ks.len()) {
        (seq![Event::Error(SyntaxErrorKind::ExpectedExpr)], pos)
    } else if ks[pos] == SyntaxKind::Ident || ks[pos] == SyntaxKind::IntNumber || ks[pos]
        == SyntaxKind::Str {
        (seq![Event::Tok], pos + 1)
    } else if ks[pos] == SyntaxKind::LParen {
        let (te, p1) = p_trivia(ks, pos + 1);
        let p1c = clamp_pos(p1, pos + 1, ks.len() as int);
        let head = seq![Event::Open(SyntaxKind::ParenExpr), Event::Tok] + te;
        if p1c < ks.len() && is_atom_start(ks[p1c]) {
            let (ee, p2) = p_expr(ks, p1c);
            let p2c = clamp_pos(p2, p1c, ks.len() as int);
            let (te2, p3) = p_trivia(ks, p2c);
            let p3c = clamp_pos(p3, p2c, ks.len() as int);
            if p3c < ks.len() && ks[p3c] == SyntaxKind::RParen {
                (head + ee + te2 + seq![Event::Tok, Event::Close], p3c + 1)
            } else {
                (
                    head + ee + te2 + seq![
                        Event::Error(SyntaxErrorKind::ExpectedRParen),
                        Event::Close,
                    ],
                    p3c,
                )
            }
        } else {
            (head + seq![Event::Error(SyntaxErrorKind::ExpectedExpr), Event::Close], p1c)
        }
    } else {
        (seq![Event::Error(SyntaxErrorKind::ExpectedExpr)], pos)
    }
}

/// The operator/operand tail of an expression.  Trivia before a token that
/// is not an operator is left unconsumed for the enclosing construct.
pub open spec fn p_expr_rest(ks: Seq<SyntaxKind>, pos: int) -> (Seq<Event>, int)
    decreases ks.len() - pos, 1int,
{
    if !(0 <= pos <= ks.len()) {
        (Seq::empty(), pos)
    } else {
        let (te, p1) = p_trivia(ks, pos);
        let p1c = clamp_pos(p1, pos, ks.len() as int);
        if p1c < ks.len() && is_op(ks[p1c]) {
            let (te2, p2) = p_trivia(ks, p1c + 1);
            let p2c = clamp_pos(p2, p1c + 1, ks.len() as int);
            if p2c < ks.len() && is_atom_start(ks[p2c]) {
                let (ae, p3) = p_atom(ks, p2c);
                let p3c = clamp_pos(p3, p2c, ks.len() as int);
                let (re, p4) = p_expr_rest(ks, p3c);
                (te + seq![Event::Tok] + te2 + ae + re, p4)
            } else {
                (te + seq![Event::Tok] + te2 + seq![Event::Error(SyntaxErrorKind::ExpectedExpr)], p2c)
            }
        } else {
            (Seq::empty(), pos)
        }
    }
}

/// An expression node: an atom followed by its operator tail.
pub open spec fn p_expr(ks: Seq<SyntaxKind>, pos: int) -> (Seq<Event>, int)
    decreases ks.len() - pos, 3int,
{
    if !(0 <= pos <= ks.len()) {
        (seq![Event::Open(SyntaxKind::Expr), Event::Close], pos)
    } else {
        let (ae, p1) = p_atom(ks, pos);
        let p1c = clamp_pos(p1, pos, ks.len() as int);
        let (re, p2) = p_expr_rest(ks, p1c);
        (seq![Event::Open(SyntaxKind::Expr)] + ae + re + seq![Event::Close], p2)
    }
}

/// The inside of a body after `{`, including the `Close` of the body node.
/// The first `}` closes the body; the end of the stream closes it early with
/// a diagnostic at the position where `}` was expected.
pub open spec fn p_block_rest(ks: Seq<SyntaxKind>, pos: int) -> (Seq<Event>, int)
    decreases ks.len() - pos, 4int,
{
    if !(0 <= pos <= ks.len()) {
        (seq![Event::Close], pos)
    } else {
        let (te, p1) = p_trivia(ks, pos);
        let p1c = clamp_pos(p1, pos, ks.len() as int);
        if p1c >= ks.len() {
            (te + seq![Event::Error(SyntaxErrorKind::ExpectedRCurly), Event::Close], p1c)
        } else if ks[p1c] == SyntaxKind::RCurly {
            (te + seq![Event::Tok, Event::Close], p1c + 1)
        } else if is_atom_start(ks[p1c]) {
            let (ee, p2) = p_expr(ks, p1c);
            let p2c = clamp_pos(p2, p1c + 1, ks.len() as int);
            let (re, p3) = p_block_rest(ks, p2c);
            (te + ee + re, p3)
        } else if ks[p1c] == SyntaxKind::Semi {
            let (re, p3) = p_block_rest(ks, p1c + 1);
            (te + seq![Event::Tok] + re, p3)
        } else {
            let (re, p3) = p_block_rest(ks, p1c + 1);
            (
                te + seq![
                    Event::Error(SyntaxErrorKind::UnexpectedToken),
                    Event::Open(SyntaxKind::Error),
                    Event::Tok,
                    Event::Close,
                ] + re,
                p3,
            )
        }
    }
}

/// A `{ ... }` body.  Only called where the current kind is `{`.
pub open spec fn p_block(ks: Seq<SyntaxKind>, pos: int) -> (Seq<Event>, int)
    decreases ks.len() - pos, 5int,
{
    if !(0 <= pos < ks.len()) {
        (seq![Event::Open(SyntaxKind::Block), Event::Close], pos)
    } else {
        let (be, p) = p_block_rest(ks, pos + 1);
        (seq![Event::Open(SyntaxKind::Block), Event::Tok] + be, p)
    }
}

/// The inside of a parameter list after `(`, including the `Close`.
/// Recovery: `{` and `}` are never consumed here, so a missing `)` cannot
/// swallow a body.
pub open spec fn p_params_rest(ks: Seq<SyntaxKind>, pos: int) -> (Seq<Event>, int)
    decreases ks.len() - pos, 1int,
{
    if !(0 <= pos <= ks.len()) {
        (seq![Event::Close], pos)
    } else {
        let (te, p1) = p_trivia(ks, pos);
        let p1c = clamp_pos(p1, pos, ks.len() as int);
        if p1c >= ks.len() {
            (te + seq![Event::Error(SyntaxErrorKind::ExpectedRParen), Event::Close], p1c)
        } else if ks[p1c] == SyntaxKind::RParen {
            (te + seq![Event::Tok, Event::Close], p1c + 1)
        } else if ks[p1c] == SyntaxKind::Ident || ks[p1c] == SyntaxKind::Comma {
            let (re, p3) = p_params_rest(ks, p1c + 1);
            (te + seq![Event::Tok] + re, p3)
        } else if ks[p1c] == SyntaxKind::LCurly || ks[p1c] == SyntaxKind::RCurly {
            (te + seq![Event::Error(SyntaxErrorKind::ExpectedRParen), Event::Close], p1c)
        } else {
            let (re, p3) = p_params_rest(ks, p1c + 1);
            (
                te + seq![
                    Event::Error(SyntaxErrorKind::UnexpectedToken),
                    Event::Open(SyntaxKind::Error),
                    Event::Tok,
                    Event::Close,
                ] + re,
                p3,
            )
        }
    }
}

/// A `( ... )` parameter list.  Only called where the current kind is `(`.
pub open spec fn p_params(ks: Seq<SyntaxKind>, pos: int) -> (Seq<Event>, int)
    decreases ks.len() - pos, 2int,
{
    if !(0 <= pos < ks.len()) {
        (seq![Event::Open(SyntaxKind::ParamList), Event::Close], pos)
    } else {
        let (pe, p) = p_params_rest(ks, pos + 1);
        (seq![Event::Open(SyntaxKind::ParamList), Event::Tok] + pe, p)
    }
}

/// A function-like item: name, parameter list, body.  Only called where the
/// current kind is an identifier.
pub open spec fn p_item(ks: Seq<SyntaxKind>, pos: int) -> (Seq<Event>, int)
    decreases ks.len() - pos, 6int,
{
    if !(0 <= pos < ks.len()) {
        (seq![Event::Open(SyntaxKind::FnDef), Event::Close], pos)
    } else {
        let (t1, q1) = p_trivia(ks, pos + 1);
        let q1c = clamp_pos(q1, pos + 1, ks.len() as int);
        let head = seq![Event::Open(SyntaxKind::FnDef), Event::Tok] + t1;
        if q1c < ks.len() && ks[q1c] == SyntaxKind::LParen {
            let (pe, q2) = p_params(ks, q1c);
            let q2c = clamp_pos(q2, q1c + 1, ks.len() as int);
            let (t2, q3) = p_trivia(ks, q2c);
            let q3c = clamp_pos(q3, q2c, ks.len() as int);
            if q3c < ks.len() && ks[q3c] == SyntaxKind::LCurly {
                let (be, q4) = p_block(ks, q3c);
                let q4c = clamp_pos(q4, q3c + 1, ks.len() as int);
                (head + pe + t2 + be + seq![Event::Close], q4c)
            } else {
                (head + pe + t2 + seq![Event::Error(SyntaxErrorKind::ExpectedBlock), Event::Close], q3c)
            }
        } else {
            (head + seq![Event::Error(SyntaxErrorKind::ExpectedParamList), Event::Close], q1c)
        }
    }
}

/// The item list of the whole text: items, trivia between them, and error
/// nodes around tokens that start no item.
pub open spec fn p_items(ks: Seq<SyntaxKind>, pos: int) -> (Seq<Event>, int)
    decreases ks.len() - pos, 7int,
{
    if !(0 <= pos <= ks.len()) {
        (Seq::empty(), pos)
    } else {
        let (te, p1) = p_trivia(ks, pos);
        let p1c = clamp_pos(p1, pos, ks.len() as int);
        if p1c >= ks.len() {
            (te, p1c)
        } else if ks[p1c] == SyntaxKind::Ident {
            let (ie, p2) = p_item(ks, p1c);
            let p2c = clamp_pos(p2, p1c + 1, ks.len() as int);
            let (re, p3) = p_items(ks, p2c);
            (te + ie + re, p3)
        } else {
            let (re, p3) = p_items(ks, p1c + 1);
            (
                te + seq![
                    Event::Error(SyntaxErrorKind::UnexpectedToken),
                    Event::Open(SyntaxKind::Error),
                    Event::Tok,
                    Event::Close,
                ] + re,
                p3,
            )
        }
    }
}

/// The event log of a whole parse: one root node covering everything.
pub open spec fn root_events(ks: Seq<SyntaxKind>) -> Seq<Event> {
    seq![Event::Open(SyntaxKind::Root)] + p_items(ks, 0).0 + seq![Event::Close]
}

/// 1 for a `Tok` event, 0 for anything else.
pub open spec fn evt_weight(e: Event) -> int {
    match e {
        Event::Tok => 1,
        _ => 0,
    }
}

/// How many `Tok` events the log holds from index `i` on.
pub open spec fn tok_count_from(es: Seq<Event>, i: int) -> int
    decreases es.len() - i,
{
    if !(0 <= i < es.len()) {
        0
    } else {
        evt_weight(es[i]) + tok_count_from(es, i + 1)
    }
}

/// How many `Tok` events the log holds: how many tokens the tree attaches.
pub open spec fn tok_count(es: Seq<Event>) -> int {
    tok_count_from(es, 0)
}

proof fn lemma_tok_count_shift(a: Seq<Event>, b: Seq<Event>, i: int)
    requires
        0 <= i,
    ensures
        tok_count_from(a + b, a.len() + i) == tok_count_from(b, i),
    decreases b.len() - i,
{
    if i < b.len() {
        assert((a + b)[a.len() + i] == b[i]);
        lemma_tok_count_shift(a, b, i + 1);
    }
}

proof fn lemma_tok_count_prefix(a: Seq<Event>, b: Seq<Event>, i: int)
    requires
        0 <= i <= a.len(),
    ensures
        tok_count_from(a + b, i) == tok_count_from(a, i) + tok_count(b),
    decreases a.len() - i,
{
    if i < a.len() {
        assert((a + b)[i] == a[i]);
        lemma_tok_count_prefix(a, b, i + 1);
    } else {
        lemma_tok_count_shift(a, b, 0);
    }
}

/// Tok counts add over concatenation.
pub proof fn lemma_tok_count_add(a: Seq<Event>, b: Seq<Event>)
    ensures
        tok_count(a + b) == tok_count(a) + tok_count(b),
{
    lemma_tok_count_prefix(a, b, 0);
}

pub proof fn lemma_tok_count_one(a: Event)
    ensures
        tok_count(seq![a]) == evt_weight(a),
{
    reveal_with_fuel(tok_count_from, 3);
}

pub proof fn lemma_tok_count_two(a: Event, b: Event)
    ensures
        tok_count(seq![a, b]) == evt_weight(a) + evt_weight(b),
{
    assert(seq![a, b] =~= seq![a] + seq![b]);
    lemma_tok_count_add(seq![a], seq![b]);
    lemma_tok_count_one(a);
    lemma_tok_count_one(b);
}

pub proof fn lemma_tok_count_four(a: Event, b: Event, c: Event, d: Event)
    ensures
        tok_count(seq![a, b, c, d]) == evt_weight(a) + evt_weight(b) + evt_weight(c)
            + evt_weight(d),
{
    assert(seq![a, b, c, d] =~= seq![a, b] + seq![c, d]);
    lemma_tok_count_add(seq![a, b], seq![c, d]);
    lemma_tok_count_two(a, b);
    lemma_tok_count_two(c, d);
}

/// +1 for `Open`, -1 for `Close`, 0 otherwise.
pub open spec fn evt_bal(e: Event) -> int {
    match e {
        Event::Open(_) => 1,
        Event::Close => -1,
        _ => 0,
    }
}

/// The lesser of two integers.
pub open spec fn imin(a: int, b: int) -> int {
    if a <= b {
        a
    } else {
        b
    }
}

/// Net nesting depth change of the events from `i` on.
pub open spec fn bal_from(es: Seq<Event>, i: int) -> int
    decreases es.len() - i,
{
    if !(0 <= i < es.len()) {
        0
    } else {
        evt_bal(es[i]) + bal_from(es, i + 1)
    }
}

/// Net nesting depth change of a whole log.
pub open spec fn bal(es: Seq<Event>) -> int {
    bal_from(es, 0)
}

/// The lowest depth any prefix of the events from `i` on reaches, relative
/// to the depth at `i`; never positive.
pub open spec fn dip_from(es: Seq<Event>, i: int) -> int
    decreases es.len() - i,
{
    if !(0 <= i < es.len()) {
        0
    } else {
        imin(0, evt_bal(es[i]) + dip_from(es, i + 1))
    }
}

/// The lowest prefix depth of a whole log.
pub open spec fn dip(es: Seq<Event>) -> int {
    dip_from(es, 0)
}

/// Well-nested: openings and closings match like parentheses — the depth
/// never goes below the starting level and ends exactly there, so the log
/// can always be replayed into a tree.
pub open spec fn events_wf(es: Seq<Event>) -> bool {
    bal(es) == 0 && dip(es) == 0
}

proof fn lemma_bal_shift(a: Seq<Event>, b: Seq<Event>, i: int)
    requires
        0 <= i,
    ensures
        bal_from(a + b, a.len() + i) == bal_from(b, i),
    decreases b.len() - i,
{
    if i < b.len() {
        assert((a + b)[a.len() + i] == b[i]);
        lemma_bal_shift(a, b, i + 1);
    }
}

proof fn lemma_bal_prefix(a: Seq<Event>, b: Seq<Event>, i: int)
    requires
        0 <= i <= a.len(),
    ensures
        bal_from(a + b, i) == bal_from(a, i) + bal(b),
    decreases a.len() - i,
{
    if i < a.len() {
        assert((a + b)[i] == a[i]);
        lemma_bal_prefix(a, b, i + 1);
    } else {
        lemma_bal_shift(a, b, 0);
    }
}

/// Balances add over concatenation.
pub proof fn lemma_bal_add(a: Seq<Event>, b: Seq<Event>)
    ensures
        bal(a + b) == bal(a) + bal(b),
{
    lemma_bal_prefix(a, b, 0);
}

/// The dip of any log is at most zero.
pub proof fn lemma_dip_nonpos(es: Seq<Event>, i: int)
    requires
        0 <= i,
    ensures
        dip_from(es, i) <= 0,
{
    if i < es.len() {
        assert(dip_from(es, i) == imin(0, evt_bal(es[i]) + dip_from(es, i + 1)));
    }
}

proof fn lemma_dip_shift(a: Seq<Event>, b: Seq<Event>, i: int)
    requires
        0 <= i,
    ensures
        dip_from(a + b, a.len() + i) == dip_from(b, i),
    decreases b.len() - i,
{
    if i < b.len() {
        assert((a + b)[a.len() + i] == b[i]);
        lemma_dip_shift(a, b, i + 1);
    }
}

proof fn lemma_dip_concat(a: Seq<Event>, b: Seq<Event>, i: int)
    requires
        0 <= i <= a.len(),
    ensures
        dip_from(a + b, i) == imin(dip_from(a, i), bal_from(a, i) + dip(b)),
    decreases a.len() - i,
{
    if i < a.len() {
        assert((a + b)[i] == a[i]);
        lemma_dip_concat(a, b, i + 1);
    } else {
        lemma_dip_shift(a, b, 0);
        lemma_dip_nonpos(b, 0);
    }
}

/// The dip of a concatenation: the first part's dip, or the first part's
/// ending depth plus the second part's dip, whichever is lower.
pub proof fn lemma_dip_add(a: Seq<Event>, b: Seq<Event>)
    ensures
        dip(a + b) == imin(dip(a), bal(a) + dip(b)),
{
    lemma_dip_concat(a, b, 0);
}

pub proof fn lemma_nest_one(a: Event)
    ensures
        bal(seq![a]) == evt_bal(a),
        dip(seq![a]) == imin(0, evt_bal(a)),
{
    reveal_with_fuel(bal_from, 3);
    reveal_with_fuel(dip_from, 3);
}

pub proof fn lemma_nest_two(a: Event, b: Event)
    ensures
        bal(seq![a, b]) == evt_bal(a) + evt_bal(b),
        dip(seq![a, b]) == imin(0, evt_bal(a) + imin(0, evt_bal(b))),
{
    assert(seq![a, b] =~= seq![a] + seq![b]);
    lemma_bal_add(seq![a], seq![b]);
    lemma_dip_add(seq![a], seq![b]);
    lemma_nest_one(a);
    lemma_nest_one(b);
}

pub proof fn lemma_nest_four(a: Event, b: Event, c: Event, d: Event)
    ensures
        bal(seq![a, b, c, d]) == evt_bal(a) + evt_bal(b) + evt_bal(c) + evt_bal(d),
        dip(seq![a, b, c, d]) == imin(
            0,
            evt_bal(a) + imin(0, evt_bal(b) + imin(0, evt_bal(c) + imin(0, evt_bal(d)))),
        ),
{
    assert(seq![a, b, c, d] =~= seq![a, b] + seq![c, d]);
    lemma_bal_add(seq![a, b], seq![c, d]);
    lemma_dip_add(seq![a, b], seq![c, d]);
    lemma_nest_two(a, b);
    lemma_nest_two(c, d);
}

// ---------------------------------------------------------------------------
// Bounds: every parse function moves the position forward and stays inside
// the stream; the clamps in the definitions above never move a position.
// ---------------------------------------------------------------------------

pub proof fn lemma_trivia_bounds(ks: Seq<SyntaxKind>, pos: int)
    requires
        0 <= pos <= ks.len(),
    ensures
        pos <= p_trivia(ks, pos).1 <= ks.len(),
    decreases ks.len() - pos, 0int,
{
    if pos < ks.len() && ks[pos].spec_is_trivia() {
        lemma_trivia_bounds(ks, pos + 1);
    }
}

pub proof fn lemma_atom_bounds(ks: Seq<SyntaxKind>, pos: int)
    requires
        0 <= pos <= ks.len(),
    ensures
        pos <= p_atom(ks, pos).1 <= ks.len(),
        pos < ks.len() && is_atom_start(ks[pos]) ==> pos + 1 <= p_atom(ks, pos).1,
    decreases ks.len() - pos, 2int,
{
    if pos < ks.len() && ks[pos] == SyntaxKind::LParen {
        lemma_trivia_bounds(ks, pos + 1);
        let p1c = clamp_pos(p_trivia(ks, pos + 1).1, pos + 1, ks.len() as int);
        if p1c < ks.len() && is_atom_start(ks[p1c]) {
            lemma_expr_bounds(ks, p1c);
            let p2c = clamp_pos(p_expr(ks, p1c).1, p1c, ks.len() as int);
            lemma_trivia_bounds(ks, p2c);
        }
    }
}

pub proof fn lemma_expr_rest_bounds(ks: Seq<SyntaxKind>, pos: int)
    requires
        0 <= pos <= ks.len(),
    ensures
        pos <= p_expr_rest(ks, pos).1 <= ks.len(),
    decreases ks.len() - pos, 1int,
{
    lemma_trivia_bounds(ks, pos);
    let p1c = clamp_pos(p_trivia(ks, pos).1, pos, ks.len() as int);
    if p1c < ks.len() && is_op(ks[p1c]) {
        lemma_trivia_bounds(ks, p1c + 1);
        let p2c = clamp_pos(p_trivia(ks, p1c + 1).1, p1c + 1, ks.len() as int);
        if p2c < ks.len() && is_atom_start(ks[p2c]) {
            lemma_atom_bounds(ks, p2c);
            let p3c = clamp_pos(p_atom(ks, p2c).1, p2c, ks.len() as int);
            lemma_expr_rest_bounds(ks, p3c);
        }
    }
}

pub proof fn lemma_expr_bounds(ks: Seq<SyntaxKind>, pos: int)
    requires
        0 <= pos <= ks.len(),
    ensures
        pos <= p_expr(ks, pos).1 <= ks.len(),
        pos < ks.len() && is_atom_start(ks[pos]) ==> pos + 1 <= p_expr(ks, pos).1,
    decreases ks.len() - pos, 3int,
{
    lemma_atom_bounds(ks, pos);
    let p1c = clamp_pos(p_atom(ks, pos).1, pos, ks.len() as int);
    lemma_expr_rest_bounds(ks, p1c);
}

pub proof fn lemma_block_rest_bounds(ks: Seq<SyntaxKind>, pos: int)
    requires
        0 <= pos <= ks.len(),
    ensures
        pos <= p_block_rest(ks, pos).1 <= ks.len(),
    decreases ks.len() - pos, 4int,
{
    lemma_trivia_bounds(ks, pos);
    let p1c = clamp_pos(p_trivia(ks, pos).1, pos, ks.len() as int);
    if p1c >= ks.len() {
    } else if ks[p1c] == SyntaxKind::RCurly {
    } else if is_atom_start(ks[p1c]) {
        lemma_expr_bounds(ks, p1c);
        let p2c = clamp_pos(p_expr(ks, p1c).1, p1c + 1, ks.len() as int);
        lemma_block_rest_bounds(ks, p2c);
    } else if ks[p1c] == SyntaxKind::Semi {
        lemma_block_rest_bounds(ks, p1c + 1);
    } else {
        lemma_block_rest_bounds(ks, p1c + 1);
    }
}

pub proof fn lemma_block_bounds(ks: Seq<SyntaxKind>, pos: int)
    requires
        0 <= pos < ks.len(),
    ensures
        pos + 1 <= p_block(ks, pos).1 <= ks.len(),
    decreases ks.len() - pos, 5int,
{
    lemma_block_rest_bounds(ks, pos + 1);
}

pub proof fn lemma_params_rest_bounds(ks: Seq<SyntaxKind>, pos: int)
    requires
        0 <= pos <= ks.len(),
    ensures
        pos <= p_params_rest(ks, pos).1 <= ks.len(),
    decreases ks.len() - pos, 1int,
{
    lemma_trivia_bounds(ks, pos);
    let p1c = clamp_pos(p_trivia(ks, pos).1, pos, ks.len() as int);
    if p1c >= ks.len() {
    } else if ks[p1c] == SyntaxKind::RParen {
    } else if ks[p1c] == SyntaxKind::Ident || ks[p1c] == SyntaxKind::Comma {
        lemma_params_rest_bounds(ks, p1c + 1);
    } else if ks[p1c] == SyntaxKind::LCurly || ks[p1c] == SyntaxKind::RCurly {
    } else {
        lemma_params_rest_bounds(ks, p1c + 1);
    }
}

pub proof fn lemma_params_bounds(ks: Seq<SyntaxKind>, pos: int)
    requires
        0 <= pos < ks.len(),
    ensures
        pos + 1 <= p_params(ks, pos).1 <= ks.len(),
    decreases ks.len() - pos, 2int,
{
    lemma_params_rest_bounds(ks, pos + 1);
}

pub proof fn lemma_item_bounds(ks: Seq<SyntaxKind>, pos: int)
    requires
        0 <= pos < ks.len(),
    ensures
        pos + 1 <= p_item(ks, pos).1 <= ks.len(),
    decreases ks.len() - pos, 6int,
{
    lemma_trivia_bounds(ks, pos + 1);
    let q1c = clamp_pos(p_trivia(ks, pos + 1).1, pos + 1, ks.len() as int);
    if q1c < ks.len() && ks[q1c] == SyntaxKind::LParen {
        lemma_params_bounds(ks, q1c);
        let q2c = clamp_pos(p_params(ks, q1c).1, q1c + 1, ks.len() as int);
        lemma_trivia_bounds(ks, q2c);
        let q3c = clamp_pos(p_trivia(ks, q2c).1, q2c, ks.len() as int);
        if q3c < ks.len() && ks[q3c] == SyntaxKind::LCurly {
            lemma_block_bounds(ks, q3c);
        }
    }
}

// ---------------------------------------------------------------------------
// Consumption: the events of each parse function hold one `Tok` per token
// consumed, so the finished tree attaches every token exactly once.
// ---------------------------------------------------------------------------

pub proof fn lemma_trivia_count(ks: Seq<SyntaxKind>, pos: int)
    requires
        0 <= pos <= ks.len(),
    ensures
        tok_count(p_trivia(ks, pos).0) == p_trivia(ks, pos).1 - pos,
    decreases ks.len() - pos, 0int,
{
    if pos < ks.len() && ks[pos].spec_is_trivia() {
        lemma_trivia_bounds(ks, pos + 1);
        lemma_trivia_count(ks, pos + 1);
        lemma_tok_count_add(seq![Event::Tok], p_trivia(ks, pos + 1).0);
        lemma_tok_count_one(Event::Tok);
    }
}

pub proof fn lemma_atom_count(ks: Seq<SyntaxKind>, pos: int)
    requires
        0 <= pos <= ks.len(),
    ensures
        tok_count(p_atom(ks, pos).0) == p_atom(ks, pos).1 - pos,
    decreases ks.len() - pos, 2int,
{
    if !(0 <= pos < ks.len()) {
        lemma_tok_count_one(Event::Error(SyntaxErrorKind::ExpectedExpr));
    } else if ks[pos] == SyntaxKind::Ident || ks[pos] == SyntaxKind::IntNumber || ks[pos]
        == SyntaxKind::Str {
        lemma_tok_count_one(Event::Tok);
    } else if ks[pos] == SyntaxKind::LParen {
        lemma_trivia_bounds(ks, pos + 1);
        lemma_trivia_count(ks, pos + 1);
        let te = p_trivia(ks, pos + 1).0;
        let p1 = p_trivia(ks, pos + 1).1;
        let open2 = seq![Event::Open(SyntaxKind::ParenExpr), Event::Tok];
        let head = open2 + te;
        lemma_tok_count_two(open2[0], open2[1]);
    assert(open2 =~= seq![open2[0], open2[1]]);
        lemma_tok_count_add(open2, te);
        if p1 < ks.len() && is_atom_start(ks[p1]) {
            lemma_expr_bounds(ks, p1);
            lemma_expr_count(ks, p1);
            let ee = p_expr(ks, p1).0;
            let p2 = p_expr(ks, p1).1;
            lemma_trivia_bounds(ks, p2);
            lemma_trivia_count(ks, p2);
            let te2 = p_trivia(ks, p2).0;
            let p3 = p_trivia(ks, p2).1;
            lemma_tok_count_add(head, ee);
            lemma_tok_count_add(head + ee, te2);
            if p3 < ks.len() && ks[p3] == SyntaxKind::RParen {
                lemma_tok_count_two(Event::Tok, Event::Close);
                lemma_tok_count_add(head + ee + te2, seq![Event::Tok, Event::Close]);
            } else {
                lemma_tok_count_two(Event::Error(SyntaxErrorKind::ExpectedRParen), Event::Close);
                lemma_tok_count_add(
                    head + ee + te2,
                    seq![Event::Error(SyntaxErrorKind::ExpectedRParen), Event::Close],
                );
            }
        } else {
            lemma_tok_count_two(Event::Error(SyntaxErrorKind::ExpectedExpr), Event::Close);
            lemma_tok_count_add(
                head,
                seq![Event::Error(SyntaxErrorKind::ExpectedExpr), Event::Close],
            );
        }
    } else {
        lemma_tok_count_one(Event::Error(SyntaxErrorKind::ExpectedExpr));
    }
}

pub proof fn lemma_expr_rest_count(ks: Seq<SyntaxKind>, pos: int)
    requires
        0 <= pos <= ks.len(),
    ensures
        tok_count(p_expr_rest(ks, pos).0) == p_expr_rest(ks, pos).1 - pos,
    decreases ks.len() - pos, 1int,
{
    lemma_trivia_bounds(ks, pos);
    lemma_trivia_count(ks, pos);
    let te = p_trivia(ks, pos).0;
    let p1 = p_trivia(ks, pos).1;
    if p1 < ks.len() && is_op(ks[p1]) {
        lemma_trivia_bounds(ks, p1 + 1);
        lemma_trivia_count(ks, p1 + 1);
        let te2 = p_trivia(ks, p1 + 1).0;
        let p2 = p_trivia(ks, p1 + 1).1;
        lemma_tok_count_one(Event::Tok);
        lemma_tok_count_add(te, seq![Event::Tok]);
        lemma_tok_count_add(te + seq![Event::Tok], te2);
        if p2 < ks.len() && is_atom_start(ks[p2]) {
            lemma_atom_bounds(ks, p2);
            lemma_atom_count(ks, p2);
            let ae = p_atom(ks, p2).0;
            let p3 = p_atom(ks, p2).1;
            lemma_expr_rest_bounds(ks, p3);
            lemma_expr_rest_count(ks, p3);
            lemma_tok_count_add(te + seq![Event::Tok] + te2, ae);
            lemma_tok_count_add(te + seq![Event::Tok] + te2 + ae, p_expr_rest(ks, p3).0);
        } else {
            lemma_tok_count_one(Event::Error(SyntaxErrorKind::ExpectedExpr));
            lemma_tok_count_add(
                te + seq![Event::Tok] + te2,
                seq![Event::Error(SyntaxErrorKind::ExpectedExpr)],
            );
        }
    }
}

pub proof fn lemma_expr_count(ks: Seq<SyntaxKind>, pos: int)
    requires
        0 <= pos <= ks.len(),
    ensures
        tok_count(p_expr(ks, pos).0) == p_expr(ks, pos).1 - pos,
    decreases ks.len() - pos, 3int,
{
    lemma_atom_bounds(ks, pos);
    lemma_atom_count(ks, pos);
    let ae = p_atom(ks, pos).0;
    let p1 = p_atom(ks, pos).1;
    lemma_expr_rest_bounds(ks, p1);
    lemma_expr_rest_count(ks, p1);
    let re = p_expr_rest(ks, p1).0;
    lemma_tok_count_one(Event::Open(SyntaxKind::Expr));
    lemma_tok_count_one(Event::Close);
    lemma_tok_count_add(seq![Event::Open(SyntaxKind::Expr)], ae);
    lemma_tok_count_add(seq![Event::Open(SyntaxKind::Expr)] + ae, re);
    lemma_tok_count_add(seq![Event::Open(SyntaxKind::Expr)] + ae + re, seq![Event::Close]);
}

pub proof fn lemma_block_rest_count(ks: Seq<SyntaxKind>, pos: int)
    requires
        0 <= pos <= ks.len(),
    ensures
        tok_count(p_block_rest(ks, pos).0) == p_block_rest(ks, pos).1 - pos,
    decreases ks.len() - pos, 4int,
{
    lemma_trivia_bounds(ks, pos);
    lemma_trivia_count(ks, pos);
    let te = p_trivia(ks, pos).0;
    let p1 = p_trivia(ks, pos).1;
    if p1 >= ks.len() {
        lemma_tok_count_two(Event::Error(SyntaxErrorKind::ExpectedRCurly), Event::Close);
        lemma_tok_count_add(
            te,
            seq![Event::Error(SyntaxErrorKind::ExpectedRCurly), Event::Close],
        );
    } else if ks[p1] == SyntaxKind::RCurly {
        lemma_tok_count_two(Event::Tok, Event::Close);
        lemma_tok_count_add(te, seq![Event::Tok, Event::Close]);
    } else if is_atom_start(ks[p1]) {
        lemma_expr_bounds(ks, p1);
        lemma_expr_count(ks, p1);
        let ee = p_expr(ks, p1).0;
        let p2 = p_expr(ks, p1).1;
        lemma_block_rest_bounds(ks, p2);
        lemma_block_rest_count(ks, p2);
        lemma_tok_count_add(te, ee);
        lemma_tok_count_add(te + ee, p_block_rest(ks, p2).0);
    } else if ks[p1] == SyntaxKind::Semi {
        lemma_block_rest_bounds(ks, p1 + 1);
        lemma_block_rest_count(ks, p1 + 1);
        lemma_tok_count_one(Event::Tok);
        lemma_tok_count_add(te, seq![Event::Tok]);
        lemma_tok_count_add(te + seq![Event::Tok], p_block_rest(ks, p1 + 1).0);
    } else {
        lemma_block_rest_bounds(ks, p1 + 1);
        lemma_block_rest_count(ks, p1 + 1);
        let bump = seq![
            Event::Error(SyntaxErrorKind::UnexpectedToken),
            Event::Open(SyntaxKind::Error),
            Event::Tok,
            Event::Close,
        ];
        lemma_tok_count_four(bump[0], bump[1], bump[2], bump[3]);
        assert(bump =~= seq![bump[0], bump[1], bump[2], bump[3]]);
        lemma_tok_count_add(te, bump);
        lemma_tok_count_add(te + bump, p_block_rest(ks, p1 + 1).0);
    }
}

pub proof fn lemma_block_count(ks: Seq<SyntaxKind>, pos: int)
    requires
        0 <= pos < ks.len(),
    ensures
        tok_count(p_block(ks, pos).0) == p_block(ks, pos).1 - pos,
    decreases ks.len() - pos, 5int,
{
    lemma_block_rest_bounds(ks, pos + 1);
    lemma_block_rest_count(ks, pos + 1);
    let open2 = seq![Event::Open(SyntaxKind::Block), Event::Tok];
    lemma_tok_count_two(open2[0], open2[1]);
    assert(open2 =~= seq![open2[0], open2[1]]);
    lemma_tok_count_add(open2, p_block_rest(ks, pos + 1).0);
}

pub proof fn lemma_params_rest_count(ks: Seq<SyntaxKind>, pos: int)
    requires
        0 <= pos <= ks.len(),
    ensures
        tok_count(p_params_rest(ks, pos).0) == p_params_rest(ks, pos).1 - pos,
    decreases ks.len() - pos, 1int,
{
    lemma_trivia_bounds(ks, pos);
    lemma_trivia_count(ks, pos);
    let te = p_trivia(ks, pos).0;
    let p1 = p_trivia(ks, pos).1;
    if p1 >= ks.len() {
        lemma_tok_count_two(Event::Error(SyntaxErrorKind::ExpectedRParen), Event::Close);
        lemma_tok_count_add(
            te,
            seq![Event::Error(SyntaxErrorKind::ExpectedRParen), Event::Close],
        );
    } else if ks[p1] == SyntaxKind::RParen {
        lemma_tok_count_two(Event::Tok, Event::Close);
        lemma_tok_count_add(te, seq![Event::Tok, Event::Close]);
    } else if ks[p1] == SyntaxKind::Ident || ks[p1] == SyntaxKind::Comma {
        lemma_params_rest_bounds(ks, p1 + 1);
        lemma_params_rest_count(ks, p1 + 1);
        lemma_tok_count_one(Event::Tok);
        lemma_tok_count_add(te, seq![Event::Tok]);
        lemma_tok_count_add(te + seq![Event::Tok], p_params_rest(ks, p1 + 1).0);
    } else if ks[p1] == SyntaxKind::LCurly || ks[p1] == SyntaxKind::RCurly {
        lemma_tok_count_two(Event::Error(SyntaxErrorKind::ExpectedRParen), Event::Close);
        lemma_tok_count_add(
            te,
            seq![Event::Error(SyntaxErrorKind::ExpectedRParen), Event::Close],
        );
    } else {
        lemma_params_rest_bounds(ks, p1 + 1);
        lemma_params_rest_count(ks, p1 + 1);
        let bump = seq![
            Event::Error(SyntaxErrorKind::UnexpectedToken),
            Event::Open(SyntaxKind::Error),
            Event::Tok,
            Event::Close,
        ];
        lemma_tok_count_four(bump[0], bump[1], bump[2], bump[3]);
        assert(bump =~= seq![bump[0], bump[1], bump[2], bump[3]]);
        lemma_tok_count_add(te, bump);
        lemma_tok_count_add(te + bump, p_params_rest(ks, p1 + 1).0);
    }
}

pub proof fn lemma_params_count(ks: Seq<SyntaxKind>, pos: int)
    requires
        0 <= pos < ks.len(),
    ensures
        tok_count(p_params(ks, pos).0) == p_params(ks, pos).1 - pos,
    decreases ks.len() - pos, 2int,
{
    lemma_params_rest_bounds(ks, pos + 1);
    lemma_params_rest_count(ks, pos + 1);
    let open2 = seq![Event::Open(SyntaxKind::ParamList), Event::Tok];
    lemma_tok_count_two(open2[0], open2[1]);
    assert(open2 =~= seq![open2[0], open2[1]]);
    lemma_tok_count_add(open2, p_params_rest(ks, pos + 1).0);
}

pub proof fn lemma_item_count(ks: Seq<SyntaxKind>, pos: int)
    requires
        0 <= pos < ks.len(),
    ensures
        tok_count(p_item(ks, pos).0) == p_item(ks, pos).1 - pos,
    decreases ks.len() - pos, 6int,
{
    lemma_trivia_bounds(ks, pos + 1);
    lemma_trivia_count(ks, pos + 1);
    let t1 = p_trivia(ks, pos + 1).0;
    let q1 = p_trivia(ks, pos + 1).1;
    let open2 = seq![Event::Open(SyntaxKind::FnDef), Event::Tok];
    let head = open2 + t1;
    lemma_tok_count_two(open2[0], open2[1]);
    assert(open2 =~= seq![open2[0], open2[1]]);
    lemma_tok_count_add(open2, t1);
    if q1 < ks.len() && ks[q1] == SyntaxKind::LParen {
        lemma_params_bounds(ks, q1);
        lemma_params_count(ks, q1);
        let pe = p_params(ks, q1).0;
        let q2 = p_params(ks, q1).1;
        lemma_trivia_bounds(ks, q2);
        lemma_trivia_count(ks, q2);
        let t2 = p_trivia(ks, q2).0;
        let q3 = p_trivia(ks, q2).1;
        lemma_tok_count_add(head, pe);
        lemma_tok_count_add(head + pe, t2);
        if q3 < ks.len() && ks[q3] == SyntaxKind::LCurly {
            lemma_block_bounds(ks, q3);
            lemma_block_count(ks, q3);
            let be = p_block(ks, q3).0;
            lemma_tok_count_add(head + pe + t2, be);
            lemma_tok_count_one(Event::Close);
            lemma_tok_count_add(head + pe + t2 + be, seq![Event::Close]);
        } else {
            lemma_tok_count_two(Event::Error(SyntaxErrorKind::ExpectedBlock), Event::Close);
            lemma_tok_count_add(
                head + pe + t2,
                seq![Event::Error(SyntaxErrorKind::ExpectedBlock), Event::Close],
            );
        }
    } else {
        lemma_tok_count_two(Event::Error(SyntaxErrorKind::ExpectedParamList), Event::Close);
        lemma_tok_count_add(
            head,
            seq![Event::Error(SyntaxErrorKind::ExpectedParamList), Event::Close],
        );
    }
}

pub proof fn lemma_items_count(ks: Seq<SyntaxKind>, pos: int)
    requires
        0 <= pos <= ks.len(),
    ensures
        tok_count(p_items(ks, pos).0) == p_items(ks, pos).1 - pos,
    decreases ks.len() - pos, 7int,
{
    lemma_trivia_bounds(ks, pos);
    lemma_trivia_count(ks, pos);
    let te = p_trivia(ks, pos).0;
    let p1 = p_trivia(ks, pos).1;
    if p1 >= ks.len() {
    } else if ks[p1] == SyntaxKind::Ident {
        lemma_item_bounds(ks, p1);
        lemma_item_count(ks, p1);
        let ie = p_item(ks, p1).0;
        let p2 = p_item(ks, p1).1;
        lemma_items_bounds(ks, p2);
        lemma_items_count(ks, p2);
        lemma_tok_count_add(te, ie);
        lemma_tok_count_add(te + ie, p_items(ks, p2).0);
    } else {
        lemma_items_bounds(ks, p1 + 1);
        lemma_items_count(ks, p1 + 1);
        let bump = seq![
            Event::Error(SyntaxErrorKind::UnexpectedToken),
            Event::Open(SyntaxKind::Error),
            Event::Tok,
            Event::Close,
        ];
        lemma_tok_count_four(bump[0], bump[1], bump[2], bump[3]);
        assert(bump =~= seq![bump[0], bump[1], bump[2], bump[3]]);
        lemma_tok_count_add(te, bump);
        lemma_tok_count_add(te + bump, p_items(ks, p1 + 1).0);
    }
}

/// Consumption: the event log of a whole parse attaches exactly one `Tok`
/// per token of the stream, in order; nothing is dropped or duplicated.
pub proof fn lemma_parse_consumes(ks: Seq<SyntaxKind>)
    ensures
        tok_count(root_events(ks)) == ks.len(),
{
    lemma_items_bounds(ks, 0);
    lemma_items_count(ks, 0);
    let ie = p_items(ks, 0).0;
    lemma_tok_count_one(Event::Open(SyntaxKind::Root));
    lemma_tok_count_one(Event::Close);
    lemma_tok_count_add(seq![Event::Open(SyntaxKind::Root)], ie);
    lemma_tok_count_add(seq![Event::Open(SyntaxKind::Root)] + ie, seq![Event::Close]);
}

// ---------------------------------------------------------------------------
// Stack discipline: every `Open` has its matching `Close`.  Complete
// constructs emit balanced logs whose depth never dips below the start; the
// `..._rest` helpers also emit the one `Close` of their enclosing node, so
// their logs end one level down and never dip further.
// ---------------------------------------------------------------------------

pub proof fn lemma_trivia_nested(ks: Seq<SyntaxKind>, pos: int)
    requires
        0 <= pos <= ks.len(),
    ensures
        bal(p_trivia(ks, pos).0) == 0,
        dip(p_trivia(ks, pos).0) == 0,
    decreases ks.len() - pos, 0int,
{
    if pos < ks.len() && ks[pos].spec_is_trivia() {
        lemma_trivia_nested(ks, pos + 1);
        lemma_bal_add(seq![Event::Tok], p_trivia(ks, pos + 1).0);
        lemma_dip_add(seq![Event::Tok], p_trivia(ks, pos + 1).0);
        lemma_nest_one(Event::Tok);
    }
}

proof fn lemma_seq_nested(a: Seq<Event>, b: Seq<Event>, ba: int, da: int, bb: int, db: int)
    requires
        bal(a) == ba,
        dip(a) >= da,
        bal(b) == bb,
        dip(b) >= db,
    ensures
        bal(a + b) == ba + bb,
        dip(a + b) >= imin(da, ba + db),
{
    lemma_bal_add(a, b);
    lemma_dip_add(a, b);
}

pub proof fn lemma_atom_nested(ks: Seq<SyntaxKind>, pos: int)
    requires
        0 <= pos <= ks.len(),
    ensures
        bal(p_atom(ks, pos).0) == 0,
        dip(p_atom(ks, pos).0) == 0,
    decreases ks.len() - pos, 2int,
{
    if !(0 <= pos < ks.len()) {
        lemma_nest_one(Event::Error(SyntaxErrorKind::ExpectedExpr));
    } else if ks[pos] == SyntaxKind::Ident || ks[pos] == SyntaxKind::IntNumber || ks[pos]
        == SyntaxKind::Str {
        lemma_nest_one(Event::Tok);
    } else if ks[pos] == SyntaxKind::LParen {
        lemma_trivia_bounds(ks, pos + 1);
        lemma_trivia_nested(ks, pos + 1);
        let te = p_trivia(ks, pos + 1).0;
        let p1 = p_trivia(ks, pos + 1).1;
        let open2 = seq![Event::Open(SyntaxKind::ParenExpr), Event::Tok];
        let head = open2 + te;
        lemma_nest_two(open2[0], open2[1]);
        assert(open2 =~= seq![open2[0], open2[1]]);
        lemma_seq_nested(open2, te, 1, 0, 0, 0);
        if p1 < ks.len() && is_atom_start(ks[p1]) {
            lemma_expr_bounds(ks, p1);
            lemma_expr_nested(ks, p1);
            let ee = p_expr(ks, p1).0;
            let p2 = p_expr(ks, p1).1;
            lemma_trivia_bounds(ks, p2);
            lemma_trivia_nested(ks, p2);
            let te2 = p_trivia(ks, p2).0;
            let p3 = p_trivia(ks, p2).1;
            lemma_seq_nested(head, ee, 1, 0, 0, 0);
            lemma_seq_nested(head + ee, te2, 1, 0, 0, 0);
            if p3 < ks.len() && ks[p3] == SyntaxKind::RParen {
                lemma_nest_two(Event::Tok, Event::Close);
                lemma_seq_nested(head + ee + te2, seq![Event::Tok, Event::Close], 1, 0, -1, -1);
            } else {
                lemma_nest_two(Event::Error(SyntaxErrorKind::ExpectedRParen), Event::Close);
                lemma_seq_nested(
                    head + ee + te2,
                    seq![Event::Error(SyntaxErrorKind::ExpectedRParen), Event::Close],
                    1,
                    0,
                    -1,
                    -1,
                );
            }
        } else {
            lemma_nest_two(Event::Error(SyntaxErrorKind::ExpectedExpr), Event::Close);
            lemma_seq_nested(
                head,
                seq![Event::Error(SyntaxErrorKind::ExpectedExpr), Event::Close],
                1,
                0,
                -1,
                -1,
            );
        }
    } else {
        lemma_nest_one(Event::Error(SyntaxErrorKind::ExpectedExpr));
    }
}

pub proof fn lemma_expr_rest_nested(ks: Seq<SyntaxKind>, pos: int)
    requires
        0 <= pos <= ks.len(),
    ensures
        bal(p_expr_rest(ks, pos).0) == 0,
        dip(p_expr_rest(ks, pos).0) == 0,
    decreases ks.len() - pos, 1int,
{
    lemma_trivia_bounds(ks, pos);
    lemma_trivia_nested(ks, pos);
    let te = p_trivia(ks, pos).0;
    let p1 = p_trivia(ks, pos).1;
    if p1 < ks.len() && is_op(ks[p1]) {
        lemma_trivia_bounds(ks, p1 + 1);
        lemma_trivia_nested(ks, p1 + 1);
        let te2 = p_trivia(ks, p1 + 1).0;
        let p2 = p_trivia(ks, p1 + 1).1;
        lemma_nest_one(Event::Tok);
        lemma_seq_nested(te, seq![Event::Tok], 0, 0, 0, 0);
        lemma_seq_nested(te + seq![Event::Tok], te2, 0, 0, 0, 0);
        if p2 < ks.len() && is_atom_start(ks[p2]) {
            lemma_atom_bounds(ks, p2);
            lemma_atom_nested(ks, p2);
            let ae = p_atom(ks, p2).0;
            let p3 = p_atom(ks, p2).1;
            lemma_expr_rest_bounds(ks, p3);
            lemma_expr_rest_nested(ks, p3);
            lemma_seq_nested(te + seq![Event::Tok] + te2, ae, 0, 0, 0, 0);
            lemma_seq_nested(te + seq![Event::Tok] + te2 + ae, p_expr_rest(ks, p3).0, 0, 0, 0, 0);
        } else {
            lemma_nest_one(Event::Error(SyntaxErrorKind::ExpectedExpr));
            lemma_seq_nested(
                te + seq![Event::Tok] + te2,
                seq![Event::Error(SyntaxErrorKind::ExpectedExpr)],
                0,
                0,
                0,
                0,
            );
        }
    }
}

pub proof fn lemma_expr_nested(ks: Seq<SyntaxKind>, pos: int)
    requires
        0 <= pos <= ks.len(),
    ensures
        bal(p_expr(ks, pos).0) == 0,
        dip(p_expr(ks, pos).0) == 0,
    decreases ks.len() - pos, 3int,
{
    lemma_atom_bounds(ks, pos);
    lemma_atom_nested(ks, pos);
    let ae = p_atom(ks, pos).0;
    let p1 = p_atom(ks, pos).1;
    lemma_expr_rest_bounds(ks, p1);
    lemma_expr_rest_nested(ks, p1);
    let re = p_expr_rest(ks, p1).0;
    lemma_nest_one(Event::Open(SyntaxKind::Expr));
    lemma_nest_one(Event::Close);
    lemma_seq_nested(seq![Event::Open(SyntaxKind::Expr)], ae, 1, 0, 0, 0);
    lemma_seq_nested(seq![Event::Open(SyntaxKind::Expr)] + ae, re, 1, 0, 0, 0);
    lemma_seq_nested(seq![Event::Open(SyntaxKind::Expr)] + ae + re, seq![Event::Close], 1, 0, -1, -1);
}

pub proof fn lemma_block_rest_nested(ks: Seq<SyntaxKind>, pos: int)
    requires
        0 <= pos <= ks.len(),
    ensures
        bal(p_block_rest(ks, pos).0) == -1,
        dip(p_block_rest(ks, pos).0) >= -1,
    decreases ks.len() - pos, 4int,
{
    lemma_trivia_bounds(ks, pos);
    lemma_trivia_nested(ks, pos);
    let te = p_trivia(ks, pos).0;
    let p1 = p_trivia(ks, pos).1;
    if p1 >= ks.len() {
        lemma_nest_two(Event::Error(SyntaxErrorKind::ExpectedRCurly), Event::Close);
        lemma_seq_nested(
            te,
            seq![Event::Error(SyntaxErrorKind::ExpectedRCurly), Event::Close],
            0,
            0,
            -1,
            -1,
        );
    } else if ks[p1] == SyntaxKind::RCurly {
        lemma_nest_two(Event::Tok, Event::Close);
        lemma_seq_nested(te, seq![Event::Tok, Event::Close], 0, 0, -1, -1);
    } else if is_atom_start(ks[p1]) {
        lemma_expr_bounds(ks, p1);
        lemma_expr_nested(ks, p1);
        let ee = p_expr(ks, p1).0;
        let p2 = p_expr(ks, p1).1;
        lemma_block_rest_bounds(ks, p2);
        lemma_block_rest_nested(ks, p2);
        lemma_seq_nested(te, ee, 0, 0, 0, 0);
        lemma_seq_nested(te + ee, p_block_rest(ks, p2).0, 0, 0, -1, -1);
    } else if ks[p1] == SyntaxKind::Semi {
        lemma_block_rest_bounds(ks, p1 + 1);
        lemma_block_rest_nested(ks, p1 + 1);
        lemma_nest_one(Event::Tok);
        lemma_seq_nested(te, seq![Event::Tok], 0, 0, 0, 0);
        lemma_seq_nested(te + seq![Event::Tok], p_block_rest(ks, p1 + 1).0, 0, 0, -1, -1);
    } else {
        lemma_block_rest_bounds(ks, p1 + 1);
        lemma_block_rest_nested(ks, p1 + 1);
        let bump = seq![
            Event::Error(SyntaxErrorKind::UnexpectedToken),
            Event::Open(SyntaxKind::Error),
            Event::Tok,
            Event::Close,
        ];
        lemma_nest_four(bump[0], bump[1], bump[2], bump[3]);
        assert(bump =~= seq![bump[0], bump[1], bump[2], bump[3]]);
        lemma_seq_nested(te, bump, 0, 0, 0, 0);
        lemma_seq_nested(te + bump, p_block_rest(ks, p1 + 1).0, 0, 0, -1, -1);
    }
}

pub proof fn lemma_block_nested(ks: Seq<SyntaxKind>, pos: int)
    requires
        0 <= pos < ks.len(),
    ensures
        bal(p_block(ks, pos).0) == 0,
        dip(p_block(ks, pos).0) == 0,
    decreases ks.len() - pos, 5int,
{
    lemma_block_rest_bounds(ks, pos + 1);
    lemma_block_rest_nested(ks, pos + 1);
    let open2 = seq![Event::Open(SyntaxKind::Block), Event::Tok];
    lemma_nest_two(open2[0], open2[1]);
    assert(open2 =~= seq![open2[0], open2[1]]);
    lemma_seq_nested(open2, p_block_rest(ks, pos + 1).0, 1, 0, -1, -1);
}

pub proof fn lemma_params_rest_nested(ks: Seq<SyntaxKind>, pos: int)
    requires
        0 <= pos <= ks.len(),
    ensures
        bal(p_params_rest(ks, pos).0) == -1,
        dip(p_params_rest(ks, pos).0) >= -1,
    decreases ks.len() - pos, 1int,
{
    lemma_trivia_bounds(ks, pos);
    lemma_trivia_nested(ks, pos);
    let te = p_trivia(ks, pos).0;
    let p1 = p_trivia(ks, pos).1;
    if p1 >= ks.len() {
        lemma_nest_two(Event::Error(SyntaxErrorKind::ExpectedRParen), Event::Close);
        lemma_seq_nested(
            te,
            seq![Event::Error(SyntaxErrorKind::ExpectedRParen), Event::Close],
            0,
            0,
            -1,
            -1,
        );
    } else if ks[p1] == SyntaxKind::RParen {
        lemma_nest_two(Event::Tok, Event::Close);
        lemma_seq_nested(te, seq![Event::Tok, Event::Close], 0, 0, -1, -1);
    } else if ks[p1] == SyntaxKind::Ident || ks[p1] == SyntaxKind::Comma {
        lemma_params_rest_bounds(ks, p1 + 1);
        lemma_params_rest_nested(ks, p1 + 1);
        lemma_nest_one(Event::Tok);
        lemma_seq_nested(te, seq![Event::Tok], 0, 0, 0, 0);
        lemma_seq_nested(te + seq![Event::Tok], p_params_rest(ks, p1 + 1).0, 0, 0, -1, -1);
    } else if ks[p1] == SyntaxKind::LCurly || ks[p1] == SyntaxKind::RCurly {
        lemma_nest_two(Event::Error(SyntaxErrorKind::ExpectedRParen), Event::Close);
        lemma_seq_nested(
            te,
            seq![Event::Error(SyntaxErrorKind::ExpectedRParen), Event::Close],
            0,
            0,
            -1,
            -1,
        );
    } else {
        lemma_params_rest_bounds(ks, p1 + 1);
        lemma_params_rest_nested(ks, p1 + 1);
        let bump = seq![
            Event::Error(SyntaxErrorKind::UnexpectedToken),
            Event::Open(SyntaxKind::Error),
            Event::Tok,
            Event::Close,
        ];
        lemma_nest_four(bump[0], bump[1], bump[2], bump[3]);
        assert(bump =~= seq![bump[0], bump[1], bump[2], bump[3]]);
        lemma_seq_nested(te, bump, 0, 0, 0, 0);
        lemma_seq_nested(te + bump, p_params_rest(ks, p1 + 1).0, 0, 0, -1, -1);
    }
}

pub proof fn lemma_params_nested(ks: Seq<SyntaxKind>, pos: int)
    requires
        0 <= pos < ks.len(),
    ensures
        bal(p_params(ks, pos).0) == 0,
        dip(p_params(ks, pos).0) == 0,
    decreases ks.len() - pos, 2int,
{
    lemma_params_rest_bounds(ks, pos + 1);
    lemma_params_rest_nested(ks, pos + 1);
    let open2 = seq![Event::Open(SyntaxKind::ParamList), Event::Tok];
    lemma_nest_two(open2[0], open2[1]);
    assert(open2 =~= seq![open2[0], open2[1]]);
    lemma_seq_nested(open2, p_params_rest(ks, pos + 1).0, 1, 0, -1, -1);
}

pub proof fn lemma_item_nested(ks: Seq<SyntaxKind>, pos: int)
    requires
        0 <= pos < ks.len(),
    ensures
        bal(p_item(ks, pos).0) == 0,
        dip(p_item(ks, pos).0) == 0,
    decreases ks.len() - pos, 6int,
{
    lemma_trivia_bounds(ks, pos + 1);
    lemma_trivia_nested(ks, pos + 1);
    let t1 = p_trivia(ks, pos + 1).0;
    let q1 = p_trivia(ks, pos + 1).1;
    let open2 = seq![Event::Open(SyntaxKind::FnDef), Event::Tok];
    let head = open2 + t1;
    lemma_nest_two(open2[0], open2[1]);
    assert(open2 =~= seq![open2[0], open2[1]]);
    lemma_seq_nested(open2, t1, 1, 0, 0, 0);
    if q1 < ks.len() && ks[q1] == SyntaxKind::LParen {
        lemma_params_bounds(ks, q1);
        lemma_params_nested(ks, q1);
        let pe = p_params(ks, q1).0;
        let q2 = p_params(ks, q1).1;
        lemma_trivia_bounds(ks, q2);
        lemma_trivia_nested(ks, q2);
        let t2 = p_trivia(ks, q2).0;
        let q3 = p_trivia(ks, q2).1;
        lemma_seq_nested(head, pe, 1, 0, 0, 0);
        lemma_seq_nested(head + pe, t2, 1, 0, 0, 0);
        if q3 < ks.len() && ks[q3] == SyntaxKind::LCurly {
            lemma_block_bounds(ks, q3);
            lemma_block_nested(ks, q3);
            let be = p_block(ks, q3).0;
            lemma_seq_nested(head + pe + t2, be, 1, 0, 0, 0);
            lemma_nest_one(Event::Close);
            lemma_seq_nested(head + pe + t2 + be, seq![Event::Close], 1, 0, -1, -1);
        } else {
            lemma_nest_two(Event::Error(SyntaxErrorKind::ExpectedBlock), Event::Close);
            lemma_seq_nested(
                head + pe + t2,
                seq![Event::Error(SyntaxErrorKind::ExpectedBlock), Event::Close],
                1,
                0,
                -1,
                -1,
            );
        }
    } else {
        lemma_nest_two(Event::Error(SyntaxErrorKind::ExpectedParamList), Event::Close);
        lemma_seq_nested(
            head,
            seq![Event::Error(SyntaxErrorKind::ExpectedParamList), Event::Close],
            1,
            0,
            -1,
            -1,
        );
    }
}

pub proof fn lemma_items_nested(ks: Seq<SyntaxKind>, pos: int)
    requires
        0 <= pos <= ks.len(),
    ensures
        bal(p_items(ks, pos).0) == 0,
        dip(p_items(ks, pos).0) == 0,
    decreases ks.len() - pos, 7int,
{
    lemma_trivia_bounds(ks, pos);
    lemma_trivia_nested(ks, pos);
    let te = p_trivia(ks, pos).0;
    let p1 = p_trivia(ks, pos).1;
    if p1 >= ks.len() {
    } else if ks[p1] == SyntaxKind::Ident {
        lemma_item_bounds(ks, p1);
        lemma_item_nested(ks, p1);
        let ie = p_item(ks, p1).0;
        let p2 = p_item(ks, p1).1;
        lemma_items_bounds(ks, p2);
        lemma_items_nested(ks, p2);
        lemma_seq_nested(te, ie, 0, 0, 0, 0);
        lemma_seq_nested(te + ie, p_items(ks, p2).0, 0, 0, 0, 0);
    } else {
        lemma_items_bounds(ks, p1 + 1);
        lemma_items_nested(ks, p1 + 1);
        let bump = seq![
            Event::Error(SyntaxErrorKind::UnexpectedToken),
            Event::Open(SyntaxKind::Error),
            Event::Tok,
            Event::Close,
        ];
        lemma_nest_four(bump[0], bump[1], bump[2], bump[3]);
        assert(bump =~= seq![bump[0], bump[1], bump[2], bump[3]]);
        lemma_seq_nested(te, bump, 0, 0, 0, 0);
        lemma_seq_nested(te + bump, p_items(ks, p1 + 1).0, 0, 0, 0, 0);
    }
}

/// Stack discipline: the event log of a whole parse is well-nested, so it
/// can always be replayed into a tree, whatever the input was.
pub proof fn lemma_parse_well_nested(ks: Seq<SyntaxKind>)
    ensures
        events_wf(root_events(ks)),
{
    lemma_items_bounds(ks, 0);
    lemma_items_nested(ks, 0);
    let ie = p_items(ks, 0).0;
    lemma_nest_one(Event::Open(SyntaxKind::Root));
    lemma_nest_one(Event::Close);
    lemma_seq_nested(seq![Event::Open(SyntaxKind::Root)], ie, 1, 0, 0, 0);
    lemma_seq_nested(seq![Event::Open(SyntaxKind::Root)] + ie, seq![Event::Close], 1, 0, -1, -1);
    lemma_dip_nonpos(root_events(ks), 0);
}

pub proof fn lemma_items_bounds(ks: Seq<SyntaxKind>, pos: int)
    requires
        0 <= pos <= ks.len(),
    ensures
        pos <= p_items(ks, pos).1 <= ks.len(),
        p_items(ks, pos).1 == ks.len(),
    decreases ks.len() - pos, 7int,
{
    lemma_trivia_bounds(ks, pos);
    let p1c = clamp_pos(p_trivia(ks, pos).1, pos, ks.len() as int);
    if p1c >= ks.len() {
    } else if ks[p1c] == SyntaxKind::Ident {
        lemma_item_bounds(ks, p1c);
        let p2c = clamp_pos(p_item(ks, p1c).1, p1c + 1, ks.len() as int);
        lemma_items_bounds(ks, p2c);
    } else {
        lemma_items_bounds(ks, p1c + 1);
    }
}

} // verus!
