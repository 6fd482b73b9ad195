//! The executable grammar driver.
//!
//! Each function here is the executable twin of the spec function of the
//! same suffix in `grammar`, and is proved to append exactly the events that
//! the model prescribes and to stop at the same position.  The driver reads
//! only token kinds; it never sees lengths or text.

use vstd::prelude::*;

use crate::errors::SyntaxErrorKind;
use crate::grammar::Event;
use crate::grammar::clamp_pos;
use crate::grammar::is_atom_start;
use crate::grammar::is_op;
use crate::grammar::lemma_atom_bounds;
use crate::grammar::lemma_block_bounds;
use crate::grammar::lemma_block_rest_bounds;
use crate::grammar::lemma_expr_bounds;
use crate::grammar::lemma_expr_rest_bounds;
use crate::grammar::lemma_item_bounds;
use crate::grammar::lemma_params_bounds;
use crate::grammar::lemma_params_rest_bounds;
use crate::grammar::lemma_trivia_bounds;
use crate::grammar::p_atom;
use crate::grammar::p_block;
use crate::grammar::p_block_rest;
use crate::grammar::p_expr;
use crate::grammar::p_expr_rest;
use crate::grammar::p_item;
use crate::grammar::p_items;
use crate::grammar::p_params;
use crate::grammar::p_params_rest;
use crate::grammar::p_trivia;
use crate::grammar::root_events;
use crate::kinds::SyntaxKind;

verus! {

/// Executable [`is_atom_start`].
fn atom_start(k: SyntaxKind) -> (r: bool)
    ensures
        r == is_atom_start(k),
{
    k == SyntaxKind::Ident || k == SyntaxKind::IntNumber || k == SyntaxKind::Str || k
        == SyntaxKind::LParen
}

/// Executable [`is_op`].
fn op_kind(k: SyntaxKind) -> (r: bool)
    ensures
        r == is_op(k),
{
    k == SyntaxKind::Plus || k == SyntaxKind::Minus || k == SyntaxKind::Star
}

/// Position after the trivia run at `pos`, without emitting events.
fn skip_pos(ks: &Vec<SyntaxKind>, pos: usize) -> (p: usize)
    requires
        pos <= ks@.len(),
    ensures
        p as int == p_trivia(ks@, pos as int).1,
        pos <= p <= ks@.len(),
{
    let mut i: usize = pos;
    while i < ks.len() && ks[i].is_trivia()
        invariant
            pos <= i <= ks@.len(),
            p_trivia(ks@, pos as int).1 == p_trivia(ks@, i as int).1,
        decreases ks@.len() - i,
    {
        i = i + 1;
    }
    i
}

/// Emit one `Tok` per trivia token at `pos`; stop before the first
/// non-trivia token.
fn e_trivia(ks: &Vec<SyntaxKind>, pos: usize, ev: &mut Vec<Event>) -> (p: usize)
    requires
        pos <= ks@.len(),
    ensures
        final(ev)@ == old(ev)@ + p_trivia(ks@, pos as int).0,
        p as int == p_trivia(ks@, pos as int).1,
        pos <= p <= ks@.len(),
{
    let ghost base: int = ev@.len() as int;
    let mut i: usize = pos;
    while i < ks.len() && ks[i].is_trivia()
        invariant
            pos <= i <= ks@.len(),
            base <= ev@.len(),
            ev@.take(base) == old(ev)@,
            base == old(ev)@.len(),
            p_trivia(ks@, pos as int).1 == p_trivia(ks@, i as int).1,
            p_trivia(ks@, pos as int).0 =~= ev@.skip(base) + p_trivia(ks@, i as int).0,
        decreases ks@.len() - i,
    {
        ev.push(Event::Tok);
        proof {
            assert(ev@.take(base) =~= old(ev)@);
            assert(ev@.skip(base) =~= ev@.skip(base).drop_last().push(Event::Tok));
        }
        i = i + 1;
        proof {
            assert(p_trivia(ks@, pos as int).0 =~= ev@.skip(base) + p_trivia(ks@, i as int).0);
        }
    }
    proof {
        assert(p_trivia(ks@, i as int).0 =~= Seq::<Event>::empty());
        assert(ev@ =~= ev@.take(base) + ev@.skip(base));
        assert(ev@ =~= old(ev)@ + p_trivia(ks@, pos as int).0);
    }
    i
}

/// Executable [`p_atom`].
#[verifier::rlimit(60)]
fn e_atom(ks: &Vec<SyntaxKind>, pos: usize, ev: &mut Vec<Event>) -> (p: usize)
    requires
        pos <= ks@.len(),
    ensures
        final(ev)@ == old(ev)@ + p_atom(ks@, pos as int).0,
        p as int == p_atom(ks@, pos as int).1,
        pos <= p <= ks@.len(),
    decreases ks@.len() - pos, 2int,
{
    proof {
        lemma_atom_bounds(ks@, pos as int);
    }
    if pos >= ks.len() {
        ev.push(Event::Error(SyntaxErrorKind::ExpectedExpr));
        proof {
            assert(ev@ =~= old(ev)@ + p_atom(ks@, pos as int).0);
        }
        return pos;
    }
    let k = ks[pos];
    if k == SyntaxKind::Ident || k == SyntaxKind::IntNumber || k == SyntaxKind::Str {
        ev.push(Event::Tok);
        proof {
            assert(ev@ =~= old(ev)@ + p_atom(ks@, pos as int).0);
        }
        pos + 1
    } else if k == SyntaxKind::LParen {
        ev.push(Event::Open(SyntaxKind::ParenExpr));
        ev.push(Event::Tok);
        let p1 = e_trivia(ks, pos + 1, ev);
        proof {
            lemma_trivia_bounds(ks@, pos + 1 as int);
            assert(clamp_pos(p_trivia(ks@, pos + 1 as int).1, pos + 1 as int, ks@.len() as int)
                == p1 as int);
        }
        if p1 < ks.len() && atom_start(ks[p1]) {
            let p2 = e_expr(ks, p1, ev);
            proof {
                lemma_expr_bounds(ks@, p1 as int);
                assert(clamp_pos(p_expr(ks@, p1 as int).1, p1 as int, ks@.len() as int)
                    == p2 as int);
            }
            let p3 = e_trivia(ks, p2, ev);
            proof {
                lemma_trivia_bounds(ks@, p2 as int);
                assert(clamp_pos(p_trivia(ks@, p2 as int).1, p2 as int, ks@.len() as int)
                    == p3 as int);
            }
            if p3 < ks.len() && ks[p3] == SyntaxKind::RParen {
                ev.push(Event::Tok);
                ev.push(Event::Close);
                proof {
                    assert(ev@ =~= old(ev)@ + p_atom(ks@, pos as int).0);
                }
                p3 + 1
            } else {
                ev.push(Event::Error(SyntaxErrorKind::ExpectedRParen));
                ev.push(Event::Close);
                proof {
                    assert(ev@ =~= old(ev)@ + p_atom(ks@, pos as int).0);
                }
                p3
            }
        } else {
            ev.push(Event::Error(SyntaxErrorKind::ExpectedExpr));
            ev.push(Event::Close);
            proof {
                assert(ev@ =~= old(ev)@ + p_atom(ks@, pos as int).0);
            }
            p1
        }
    } else {
        ev.push(Event::Error(SyntaxErrorKind::ExpectedExpr));
        proof {
            assert(ev@ =~= old(ev)@ + p_atom(ks@, pos as int).0);
        }
        pos
    }
}

/// Executable [`p_expr_rest`].
#[verifier::rlimit(60)]
fn e_expr_rest(ks: &Vec<SyntaxKind>, pos: usize, ev: &mut Vec<Event>) -> (p: usize)
    requires
        pos <= ks@.len(),
    ensures
        final(ev)@ == old(ev)@ + p_expr_rest(ks@, pos as int).0,
        p as int == p_expr_rest(ks@, pos as int).1,
        pos <= p <= ks@.len(),
    decreases ks@.len() - pos, 1int,
{
    proof {
        lemma_expr_rest_bounds(ks@, pos as int);
    }
    let ghost base: int = ev@.len() as int;
    let mut i: usize = pos;
    loop
        invariant
            pos <= i <= ks@.len(),
            base == old(ev)@.len(),
            base <= ev@.len(),
            ev@.take(base) == old(ev)@,
            p_expr_rest(ks@, pos as int).1 == p_expr_rest(ks@, i as int).1,
            p_expr_rest(ks@, pos as int).0 =~= ev@.skip(base) + p_expr_rest(ks@, i as int).0,
        decreases ks@.len() - i,
    {
        proof {
            lemma_expr_rest_bounds(ks@, i as int);
        }
        let p1 = skip_pos(ks, i);
        proof {
            lemma_trivia_bounds(ks@, i as int);
        }
        if !(p1 < ks.len() && op_kind(ks[p1])) {
            proof {
                assert(p_expr_rest(ks@, i as int).0 =~= Seq::<Event>::empty());
                assert(ev@ =~= ev@.take(base) + ev@.skip(base));
                assert(ev@ =~= old(ev)@ + p_expr_rest(ks@, pos as int).0);
            }
            return i;
        }
        let ghost pre: Seq<Event> = ev@.skip(base);
        let p1b = e_trivia(ks, i, ev);
        ev.push(Event::Tok);
        let p2 = e_trivia(ks, p1 + 1, ev);
        proof {
            lemma_trivia_bounds(ks@, p1 + 1 as int);
            assert(clamp_pos(p_trivia(ks@, p1 + 1 as int).1, p1 + 1 as int, ks@.len() as int)
                == p2 as int);
        }
        if p2 < ks.len() && atom_start(ks[p2]) {
            let p3 = e_atom(ks, p2, ev);
            proof {
                lemma_atom_bounds(ks@, p2 as int);
                assert(clamp_pos(p_atom(ks@, p2 as int).1, p2 as int, ks@.len() as int)
                    == p3 as int);
                let te = p_trivia(ks@, i as int).0;
                let te2 = p_trivia(ks@, p1 + 1 as int).0;
                let ae = p_atom(ks@, p2 as int).0;
                assert(p_expr_rest(ks@, i as int).0 =~= te + seq![Event::Tok] + te2 + ae
                    + p_expr_rest(ks@, p3 as int).0);
                assert(ev@.take(base) =~= old(ev)@);
                assert(ev@.skip(base) =~= pre + te + seq![Event::Tok] + te2 + ae);
            }
            i = p3;
            proof {
                assert(p_expr_rest(ks@, pos as int).0 =~= ev@.skip(base) + p_expr_rest(
                    ks@,
                    i as int,
                ).0);
            }
        } else {
            ev.push(Event::Error(SyntaxErrorKind::ExpectedExpr));
            proof {
                let te = p_trivia(ks@, i as int).0;
                let te2 = p_trivia(ks@, p1 + 1 as int).0;
                assert(p_expr_rest(ks@, i as int).0 =~= te + seq![Event::Tok] + te2 + seq![
                    Event::Error(SyntaxErrorKind::ExpectedExpr),
                ]);
                assert(ev@ =~= ev@.take(base) + ev@.skip(base));
                assert(ev@.take(base) =~= old(ev)@);
                assert(ev@.skip(base) =~= pre + p_expr_rest(ks@, i as int).0);
                assert(ev@ =~= old(ev)@ + p_expr_rest(ks@, pos as int).0);
            }
            return p2;
        }
    }
}

/// Executable [`p_expr`].
fn e_expr(ks: &Vec<SyntaxKind>, pos: usize, ev: &mut Vec<Event>) -> (p: usize)
    requires
        pos <= ks@.len(),
    ensures
        final(ev)@ == old(ev)@ + p_expr(ks@, pos as int).0,
        p as int == p_expr(ks@, pos as int).1,
        pos <= p <= ks@.len(),
    decreases ks@.len() - pos, 3int,
{
    proof {
        lemma_expr_bounds(ks@, pos as int);
    }
    ev.push(Event::Open(SyntaxKind::Expr));
    let p1 = e_atom(ks, pos, ev);
    proof {
        lemma_atom_bounds(ks@, pos as int);
        assert(clamp_pos(p_atom(ks@, pos as int).1, pos as int, ks@.len() as int) == p1 as int);
    }
    let p2 = e_expr_rest(ks, p1, ev);
    ev.push(Event::Close);
    proof {
        assert(ev@ =~= old(ev)@ + p_expr(ks@, pos as int).0);
    }
    p2
}

/// Executable [`p_block_rest`].
fn e_block_rest(ks: &Vec<SyntaxKind>, pos: usize, ev: &mut Vec<Event>) -> (p: usize)
    requires
        pos <= ks@.len(),
    ensures
        final(ev)@ == old(ev)@ + p_block_rest(ks@, pos as int).0,
        p as int == p_block_rest(ks@, pos as int).1,
        pos <= p <= ks@.len(),
{
    proof {
        lemma_block_rest_bounds(ks@, pos as int);
    }
    let ghost base: int = ev@.len() as int;
    let mut i: usize = pos;
    loop
        invariant
            pos <= i <= ks@.len(),
            base == old(ev)@.len(),
            base <= ev@.len(),
            ev@.take(base) == old(ev)@,
            p_block_rest(ks@, pos as int).1 == p_block_rest(ks@, i as int).1,
            p_block_rest(ks@, pos as int).0 =~= ev@.skip(base) + p_block_rest(ks@, i as int).0,
        decreases ks@.len() - i,
    {
        proof {
            lemma_block_rest_bounds(ks@, i as int);
        }
        let ghost pre: Seq<Event> = ev@.skip(base);
        let p1 = e_trivia(ks, i, ev);
        proof {
            lemma_trivia_bounds(ks@, i as int);
        }
        if p1 >= ks.len() {
            ev.push(Event::Error(SyntaxErrorKind::ExpectedRCurly));
            ev.push(Event::Close);
            proof {
                assert(ev@ =~= ev@.take(base) + ev@.skip(base));
                assert(ev@.take(base) =~= old(ev)@);
                assert(ev@.skip(base) =~= pre + p_block_rest(ks@, i as int).0);
                assert(ev@ =~= old(ev)@ + p_block_rest(ks@, pos as int).0);
            }
            return p1;
        }
        let k = ks[p1];
        if k == SyntaxKind::RCurly {
            ev.push(Event::Tok);
            ev.push(Event::Close);
            proof {
                assert(ev@ =~= ev@.take(base) + ev@.skip(base));
                assert(ev@.take(base) =~= old(ev)@);
                assert(ev@.skip(base) =~= pre + p_block_rest(ks@, i as int).0);
                assert(ev@ =~= old(ev)@ + p_block_rest(ks@, pos as int).0);
            }
            return p1 + 1;
        } else if atom_start(k) {
            let p2 = e_expr(ks, p1, ev);
            proof {
                lemma_expr_bounds(ks@, p1 as int);
                assert(clamp_pos(p_expr(ks@, p1 as int).1, p1 + 1 as int, ks@.len() as int)
                    == p2 as int);
                let te = p_trivia(ks@, i as int).0;
                let ee = p_expr(ks@, p1 as int).0;
                assert(p_block_rest(ks@, i as int).0 =~= te + ee + p_block_rest(ks@, p2 as int).0);
                assert(ev@.take(base) =~= old(ev)@);
                assert(ev@.skip(base) =~= pre + te + ee);
            }
            i = p2;
            proof {
                assert(p_block_rest(ks@, pos as int).0 =~= ev@.skip(base) + p_block_rest(
                    ks@,
                    i as int,
                ).0);
            }
        } else if k == SyntaxKind::Semi {
            ev.push(Event::Tok);
            proof {
                let te = p_trivia(ks@, i as int).0;
                assert(p_block_rest(ks@, i as int).0 =~= te + seq![Event::Tok] + p_block_rest(
                    ks@,
                    p1 + 1 as int,
                ).0);
                assert(ev@.take(base) =~= old(ev)@);
                assert(ev@.skip(base) =~= pre + te + seq![Event::Tok]);
            }
            i = p1 + 1;
            proof {
                assert(p_block_rest(ks@, pos as int).0 =~= ev@.skip(base) + p_block_rest(
                    ks@,
                    i as int,
                ).0);
            }
        } else {
            ev.push(Event::Error(SyntaxErrorKind::UnexpectedToken));
            ev.push(Event::Open(SyntaxKind::Error));
            ev.push(Event::Tok);
            ev.push(Event::Close);
            proof {
                let te = p_trivia(ks@, i as int).0;
                let bump = seq![
                    Event::Error(SyntaxErrorKind::UnexpectedToken),
                    Event::Open(SyntaxKind::Error),
                    Event::Tok,
                    Event::Close,
                ];
                assert(p_block_rest(ks@, i as int).0 =~= te + bump + p_block_rest(
                    ks@,
                    p1 + 1 as int,
                ).0);
                assert(ev@.take(base) =~= old(ev)@);
                assert(ev@.skip(base) =~= pre + te + bump);
            }
            i = p1 + 1;
            proof {
                assert(p_block_rest(ks@, pos as int).0 =~= ev@.skip(base) + p_block_rest(
                    ks@,
                    i as int,
                ).0);
            }
        }
    }
}

/// Executable [`p_block`].
pub(crate) fn e_block(ks: &Vec<SyntaxKind>, pos: usize, ev: &mut Vec<Event>) -> (p: usize)
    requires
        pos < ks@.len(),
    ensures
        final(ev)@ == old(ev)@ + p_block(ks@, pos as int).0,
        p as int == p_block(ks@, pos as int).1,
        pos <= p <= ks@.len(),
{
    proof {
        lemma_block_bounds(ks@, pos as int);
    }
    let _n: usize = ks.len();
    ev.push(Event::Open(SyntaxKind::Block));
    ev.push(Event::Tok);
    let p = e_block_rest(ks, pos + 1, ev);
    proof {
        assert(ev@ =~= old(ev)@ + p_block(ks@, pos as int).0);
    }
    p
}

/// Executable [`p_params_rest`].
fn e_params_rest(ks: &Vec<SyntaxKind>, pos: usize, ev: &mut Vec<Event>) -> (p: usize)
    requires
        pos <= ks@.len(),
    ensures
        final(ev)@ == old(ev)@ + p_params_rest(ks@, pos as int).0,
        p as int == p_params_rest(ks@, pos as int).1,
        pos <= p <= ks@.len(),
{
    proof {
        lemma_params_rest_bounds(ks@, pos as int);
    }
    let ghost base: int = ev@.len() as int;
    let mut i: usize = pos;
    loop
        invariant
            pos <= i <= ks@.len(),
            base == old(ev)@.len(),
            base <= ev@.len(),
            ev@.take(base) == old(ev)@,
            p_params_rest(ks@, pos as int).1 == p_params_rest(ks@, i as int).1,
            p_params_rest(ks@, pos as int).0 =~= ev@.skip(base) + p_params_rest(ks@, i as int).0,
        decreases ks@.len() - i,
    {
        proof {
            lemma_params_rest_bounds(ks@, i as int);
        }
        let ghost pre: Seq<Event> = ev@.skip(base);
        let p1 = e_trivia(ks, i, ev);
        proof {
            lemma_trivia_bounds(ks@, i as int);
        }
        if p1 >= ks.len() {
            ev.push(Event::Error(SyntaxErrorKind::ExpectedRParen));
            ev.push(Event::Close);
            proof {
                assert(ev@ =~= ev@.take(base) + ev@.skip(base));
                assert(ev@.take(base) =~= old(ev)@);
                assert(ev@.skip(base) =~= pre + p_params_rest(ks@, i as int).0);
                assert(ev@ =~= old(ev)@ + p_params_rest(ks@, pos as int).0);
            }
            return p1;
        }
        let k = ks[p1];
        if k == SyntaxKind::RParen {
            ev.push(Event::Tok);
            ev.push(Event::Close);
            proof {
                assert(ev@ =~= ev@.take(base) + ev@.skip(base));
                assert(ev@.take(base) =~= old(ev)@);
                assert(ev@.skip(base) =~= pre + p_params_rest(ks@, i as int).0);
                assert(ev@ =~= old(ev)@ + p_params_rest(ks@, pos as int).0);
            }
            return p1 + 1;
        } else if k == SyntaxKind::Ident || k == SyntaxKind::Comma {
            ev.push(Event::Tok);
            proof {
                let te = p_trivia(ks@, i as int).0;
                assert(p_params_rest(ks@, i as int).0 =~= te + seq![Event::Tok] + p_params_rest(
                    ks@,
                    p1 + 1 as int,
                ).0);
                assert(ev@.take(base) =~= old(ev)@);
                assert(ev@.skip(base) =~= pre + te + seq![Event::Tok]);
            }
            i = p1 + 1;
            proof {
                assert(p_params_rest(ks@, pos as int).0 =~= ev@.skip(base) + p_params_rest(
                    ks@,
                    i as int,
                ).0);
            }
        } else if k == SyntaxKind::LCurly || k == SyntaxKind::RCurly {
            ev.push(Event::Error(SyntaxErrorKind::ExpectedRParen));
            ev.push(Event::Close);
            proof {
                assert(ev@ =~= ev@.take(base) + ev@.skip(base));
                assert(ev@.take(base) =~= old(ev)@);
                assert(ev@.skip(base) =~= pre + p_params_rest(ks@, i as int).0);
                assert(ev@ =~= old(ev)@ + p_params_rest(ks@, pos as int).0);
            }
            return p1;
        } else {
            ev.push(Event::Error(SyntaxErrorKind::UnexpectedToken));
            ev.push(Event::Open(SyntaxKind::Error));
            ev.push(Event::Tok);
            ev.push(Event::Close);
            proof {
                let te = p_trivia(ks@, i as int).0;
                let bump = seq![
                    Event::Error(SyntaxErrorKind::UnexpectedToken),
                    Event::Open(SyntaxKind::Error),
                    Event::Tok,
                    Event::Close,
                ];
                assert(p_params_rest(ks@, i as int).0 =~= te + bump + p_params_rest(
                    ks@,
                    p1 + 1 as int,
                ).0);
                assert(ev@.take(base) =~= old(ev)@);
                assert(ev@.skip(base) =~= pre + te + bump);
            }
            i = p1 + 1;
            proof {
                assert(p_params_rest(ks@, pos as int).0 =~= ev@.skip(base) + p_params_rest(
                    ks@,
                    i as int,
                ).0);
            }
        }
    }
}

/// Executable [`p_params`].
fn e_params(ks: &Vec<SyntaxKind>, pos: usize, ev: &mut Vec<Event>) -> (p: usize)
    requires
        pos < ks@.len(),
    ensures
        final(ev)@ == old(ev)@ + p_params(ks@, pos as int).0,
        p as int == p_params(ks@, pos as int).1,
        pos <= p <= ks@.len(),
{
    proof {
        lemma_params_bounds(ks@, pos as int);
    }
    let _n: usize = ks.len();
    ev.push(Event::Open(SyntaxKind::ParamList));
    ev.push(Event::Tok);
    let p = e_params_rest(ks, pos + 1, ev);
    proof {
        assert(ev@ =~= old(ev)@ + p_params(ks@, pos as int).0);
    }
    p
}

/// Executable [`p_item`].
fn e_item(ks: &Vec<SyntaxKind>, pos: usize, ev: &mut Vec<Event>) -> (p: usize)
    requires
        pos < ks@.len(),
    ensures
        final(ev)@ == old(ev)@ + p_item(ks@, pos as int).0,
        p as int == p_item(ks@, pos as int).1,
        pos < p <= ks@.len(),
{
    proof {
        lemma_item_bounds(ks@, pos as int);
    }
    let _n: usize = ks.len();
    ev.push(Event::Open(SyntaxKind::FnDef));
    ev.push(Event::Tok);
    let q1 = e_trivia(ks, pos + 1, ev);
    proof {
        lemma_trivia_bounds(ks@, pos + 1 as int);
        assert(clamp_pos(p_trivia(ks@, pos + 1 as int).1, pos + 1 as int, ks@.len() as int)
            == q1 as int);
    }
    if q1 < ks.len() && ks[q1] == SyntaxKind::LParen {
        let q2 = e_params(ks, q1, ev);
        proof {
            lemma_params_bounds(ks@, q1 as int);
            assert(clamp_pos(p_params(ks@, q1 as int).1, q1 + 1 as int, ks@.len() as int)
                == q2 as int);
        }
        let q3 = e_trivia(ks, q2, ev);
        proof {
            lemma_trivia_bounds(ks@, q2 as int);
            assert(clamp_pos(p_trivia(ks@, q2 as int).1, q2 as int, ks@.len() as int)
                == q3 as int);
        }
        if q3 < ks.len() && ks[q3] == SyntaxKind::LCurly {
            let q4 = e_block(ks, q3, ev);
            proof {
                lemma_block_bounds(ks@, q3 as int);
                assert(clamp_pos(p_block(ks@, q3 as int).1, q3 + 1 as int, ks@.len() as int)
                    == q4 as int);
            }
            ev.push(Event::Close);
            proof {
                assert(ev@ =~= old(ev)@ + p_item(ks@, pos as int).0);
            }
            q4
        } else {
            ev.push(Event::Error(SyntaxErrorKind::ExpectedBlock));
            ev.push(Event::Close);
            proof {
                assert(ev@ =~= old(ev)@ + p_item(ks@, pos as int).0);
            }
            q3
        }
    } else {
        ev.push(Event::Error(SyntaxErrorKind::ExpectedParamList));
        ev.push(Event::Close);
        proof {
            assert(ev@ =~= old(ev)@ + p_item(ks@, pos as int).0);
        }
        q1
    }
}

/// Executable [`p_items`]: the top-level loop over items.
fn e_items(ks: &Vec<SyntaxKind>, ev: &mut Vec<Event>)
    ensures
        final(ev)@ == old(ev)@ + p_items(ks@, 0).0,
{
    let ghost base: int = ev@.len() as int;
    let mut i: usize = 0;
    loop
        invariant
            i <= ks@.len(),
            base == old(ev)@.len(),
            base <= ev@.len(),
            ev@.take(base) == old(ev)@,
            p_items(ks@, 0).0 =~= ev@.skip(base) + p_items(ks@, i as int).0,
        decreases ks@.len() - i,
    {
        let ghost pre: Seq<Event> = ev@.skip(base);
        let p1 = e_trivia(ks, i, ev);
        proof {
            lemma_trivia_bounds(ks@, i as int);
        }
        if p1 >= ks.len() {
            proof {
                assert(ev@ =~= ev@.take(base) + ev@.skip(base));
                assert(ev@.take(base) =~= old(ev)@);
                assert(ev@.skip(base) =~= pre + p_items(ks@, i as int).0);
                assert(ev@ =~= old(ev)@ + p_items(ks@, 0).0);
            }
            return;
        }
        if ks[p1] == SyntaxKind::Ident {
            let p2 = e_item(ks, p1, ev);
            proof {
                lemma_item_bounds(ks@, p1 as int);
                assert(clamp_pos(p_item(ks@, p1 as int).1, p1 + 1 as int, ks@.len() as int)
                    == p2 as int);
                let te = p_trivia(ks@, i as int).0;
                let ie = p_item(ks@, p1 as int).0;
                assert(p_items(ks@, i as int).0 =~= te + ie + p_items(ks@, p2 as int).0);
                assert(ev@.take(base) =~= old(ev)@);
                assert(ev@.skip(base) =~= pre + te + ie);
            }
            i = p2;
            proof {
                assert(p_items(ks@, 0).0 =~= ev@.skip(base) + p_items(ks@, i as int).0);
            }
        } else {
            ev.push(Event::Error(SyntaxErrorKind::UnexpectedToken));
            ev.push(Event::Open(SyntaxKind::Error));
            ev.push(Event::Tok);
            ev.push(Event::Close);
            proof {
                let te = p_trivia(ks@, i as int).0;
                let bump = seq![
                    Event::Error(SyntaxErrorKind::UnexpectedToken),
                    Event::Open(SyntaxKind::Error),
                    Event::Tok,
                    Event::Close,
                ];
                assert(p_items(ks@, i as int).0 =~= te + bump + p_items(ks@, p1 + 1 as int).0);
                assert(ev@.take(base) =~= old(ev)@);
                assert(ev@.skip(base) =~= pre + te + bump);
            }
            i = p1 + 1;
            proof {
                assert(p_items(ks@, 0).0 =~= ev@.skip(base) + p_items(ks@, i as int).0);
            }
        }
    }
}

/// Run the grammar driver over a kind stream, producing the event log of the
/// whole parse.
pub fn parse_events(ks: &Vec<SyntaxKind>) -> (r: Vec<Event>)
    ensures
        r@ == root_events(ks@),
{
    let mut ev: Vec<Event> = Vec::new();
    ev.push(Event::Open(SyntaxKind::Root));
    e_items(ks, &mut ev);
    ev.push(Event::Close);
    proof {
        assert(ev@ =~= root_events(ks@));
    }
    ev
}

} // verus!
