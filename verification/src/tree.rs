//! The syntax tree and its facade.
//!
//! A [`File`] owns the source text, its token stream, the event log of its
//! parse, and the parse-time diagnostics.  The tree structure is the
//! well-nested event log itself: a node is a balanced span of events, and a
//! leaf is a `Tok` event paired with the next token of the stream.  Nodes
//! store no absolute positions and no parent links; both are derived by the
//! navigation layer on demand, so unchanged parts of the log can be reused
//! across reparses.
//!
//! The type invariant of [`File`] says that every field is exactly what the
//! mathematical model prescribes for the stored text; every constructor
//! proves it, so holding a `File` is holding a theorem about its text.

use vstd::prelude::*;

use std::rc::Rc;

use crate::cursor::Root;
use crate::cursor::SyntaxNode;
use crate::errors::ErrM;
use crate::errors::SyntaxError;
use crate::errors::errs_lb;
use crate::errors::errs_model;
use crate::errors::errs_sorted;
use crate::errors::lemma_merge_sorted;
use crate::errors::merge_errs;
use crate::errors::merge_sorted_errs;
use crate::grammar::Event;
use crate::grammar::p_block;
use crate::grammar::root_events;
use crate::kinds::SyntaxKind;
use crate::lexer::TokM;
use crate::lexer::Token;
use crate::lexer::kinds_of;
use crate::lexer::lemma_tokenize_covers;
use crate::lexer::lemma_toks_len_from_mono;
use crate::lexer::spec_toks;
use crate::lexer::tokenize;
use crate::lexer::toks_len_from;
use crate::lexer::toks_model;
use crate::parser::parse_events;
use crate::reparsing::AtomEdit;
use crate::reparsing::apply_edit;
use crate::reparsing::edit_valid;
use crate::reparsing::kinds_equal;
use crate::reparsing::splice;
use crate::validation::lemma_vdiags_sorted;
use crate::validation::validate;
use crate::validation::vdiags;

verus! {

// ---------------------------------------------------------------------------
// Parse-time diagnostics, derived from the event log.
// ---------------------------------------------------------------------------

/// The diagnostics of the events from `i` on, when `ti` tokens have been
/// consumed so far and the next token starts at byte offset `off`.
pub open spec fn perrs(events: Seq<Event>, toks: Seq<TokM>, i: int, ti: int, off: int) -> Seq<
    ErrM,
>
    decreases events.len() - i,
{
    if !(0 <= i < events.len()) {
        Seq::empty()
    } else {
        match events[i] {
            Event::Tok => perrs(
                events,
                toks,
                i + 1,
                ti + 1,
                off + if 0 <= ti < toks.len() {
                    toks[ti].len
                } else {
                    0
                },
            ),
            Event::Error(k) => seq![ErrM { start: off, end: off, kind: k }] + perrs(
                events,
                toks,
                i + 1,
                ti,
                off,
            ),
            _ => perrs(events, toks, i + 1, ti, off),
        }
    }
}

/// Parse diagnostics come out sorted by ascending start offset, and never
/// before the offset the walk reached.
pub proof fn lemma_perrs_sorted(events: Seq<Event>, toks: Seq<TokM>, i: int, ti: int, off: int)
    requires
        forall|k: int| 0 <= k < toks.len() ==> 0 <= #[trigger] toks[k].len,
    ensures
        errs_sorted(perrs(events, toks, i, ti, off)),
        errs_lb(perrs(events, toks, i, ti, off), off),
    decreases events.len() - i,
{
    if 0 <= i < events.len() {
        match events[i] {
            Event::Tok => {
                let step = if 0 <= ti < toks.len() {
                    toks[ti].len
                } else {
                    0
                };
                lemma_perrs_sorted(events, toks, i + 1, ti + 1, off + step);
            },
            Event::Error(k) => {
                lemma_perrs_sorted(events, toks, i + 1, ti, off);
                let rest = perrs(events, toks, i + 1, ti, off);
                let m = seq![ErrM { start: off, end: off, kind: k }] + rest;
                assert forall|a: int, b: int| 0 <= a < b < m.len() implies #[trigger] m[a].start
                    <= #[trigger] m[b].start by {
                    if a > 0 {
                        assert(m[a] == rest[a - 1] && m[b] == rest[b - 1]);
                    } else {
                        assert(m[b] == rest[b - 1]);
                    }
                }
            },
            _ => {
                lemma_perrs_sorted(events, toks, i + 1, ti, off);
            },
        }
    }
}

/// The parse-time diagnostics of `text`.
pub open spec fn spec_parse_errors(text: Seq<u8>) -> Seq<ErrM> {
    perrs(root_events(kinds_of(spec_toks(text))), spec_toks(text), 0, 0, 0)
}

/// The validation diagnostics of `text`.
pub open spec fn spec_validation(text: Seq<u8>) -> Seq<ErrM> {
    vdiags(spec_toks(text), text, 0, 0)
}

/// All diagnostics of `text`, merged by ascending start offset.
pub open spec fn spec_errors_of(text: Seq<u8>) -> Seq<ErrM> {
    merge_errs(spec_parse_errors(text), spec_validation(text))
}

// ---------------------------------------------------------------------------
// Small executable helpers.
// ---------------------------------------------------------------------------

/// Copy a byte slice into an owned vector.
pub(crate) fn to_vec_bytes(text: &[u8]) -> (r: Vec<u8>)
    ensures
        r@ == text@,
{
    let mut r: Vec<u8> = Vec::new();
    let mut i: usize = 0;
    while i < text.len()
        invariant
            i <= text@.len(),
            r@ == text@.take(i as int),
        decreases text@.len() - i,
    {
        r.push(text[i]);
        proof {
            assert(text@.take(i + 1 as int) =~= text@.take(i as int).push(text@[i as int]));
        }
        i = i + 1;
    }
    proof {
        assert(text@.take(text@.len() as int) =~= text@);
    }
    r
}

/// The kind stream of a token stream.
fn kind_vec(tokens: &Vec<Token>) -> (r: Vec<SyntaxKind>)
    ensures
        r@ == kinds_of(toks_model(tokens@)),
{
    let mut r: Vec<SyntaxKind> = Vec::new();
    let mut i: usize = 0;
    while i < tokens.len()
        invariant
            i <= tokens@.len(),
            r@.len() == i,
            forall|j: int| 0 <= j < i ==> #[trigger] r@[j] == tokens@[j].kind,
        decreases tokens@.len() - i,
    {
        r.push(tokens[i].kind);
        i = i + 1;
    }
    proof {
        let m = kinds_of(toks_model(tokens@));
        assert(toks_model(tokens@).len() == tokens@.len());
        assert(m.len() == tokens@.len());
        assert forall|j: int| 0 <= j < tokens@.len() implies #[trigger] m[j]
            == tokens@[j].kind by {
            assert(toks_model(tokens@)[j] == TokM {
                kind: tokens@[j].kind,
                len: tokens@[j].len as int,
            });
        }
        assert(r@ =~= m);
    }
    r
}

/// Copy an event log.
pub(crate) fn copy_events(ev: &Vec<Event>) -> (r: Vec<Event>)
    ensures
        r@ == ev@,
{
    let mut r: Vec<Event> = Vec::new();
    let mut i: usize = 0;
    while i < ev.len()
        invariant
            i <= ev@.len(),
            r@ == ev@.take(i as int),
        decreases ev@.len() - i,
    {
        r.push(ev[i]);
        proof {
            assert(ev@.take(i + 1 as int) =~= ev@.take(i as int).push(ev@[i as int]));
        }
        i = i + 1;
    }
    proof {
        assert(ev@.take(ev@.len() as int) =~= ev@);
    }
    r
}

/// Walk an event log and compute the byte-ranged parse diagnostics.
pub(crate) fn compute_errors(events: &Vec<Event>, tokens: &Vec<Token>) -> (r: Vec<SyntaxError>)
    requires
        toks_len_from(toks_model(tokens@), 0) <= usize::MAX,
    ensures
        errs_model(r@) == perrs(events@, toks_model(tokens@), 0, 0, 0),
{
    let ghost toks = toks_model(tokens@);
    let mut r: Vec<SyntaxError> = Vec::new();
    let mut i: usize = 0;
    let mut ti: usize = 0;
    let mut off: usize = 0;
    proof {
        assert(toks.len() == tokens@.len());
        lemma_toks_len_from_mono(toks, 0);
        assert(errs_model(r@) + perrs(events@, toks, 0, 0, 0) =~= perrs(events@, toks, 0, 0, 0));
    }
    while i < events.len()
        invariant
            i <= events@.len(),
            ti <= i,
            toks == toks_model(tokens@),
            toks.len() == tokens@.len(),
            toks_len_from(toks, 0) <= usize::MAX,
            off as int == toks_len_from(toks, 0) - toks_len_from(toks, ti as int),
            perrs(events@, toks, 0, 0, 0) =~= errs_model(r@) + perrs(
                events@,
                toks,
                i as int,
                ti as int,
                off as int,
            ),
        decreases events@.len() - i,
    {
        let ghost pre = errs_model(r@);
        let e = events[i];
        match e {
            Event::Tok => {
                proof {
                    lemma_toks_len_from_mono(toks, ti as int);
                    lemma_toks_len_from_mono(toks, ti + 1 as int);
                }
                if ti < tokens.len() {
                    proof {
                        assert(toks[ti as int] == TokM {
                            kind: tokens@[ti as int].kind,
                            len: tokens@[ti as int].len as int,
                        });
                        assert(toks_len_from(toks, ti as int) == toks[ti as int].len
                            + toks_len_from(toks, ti + 1 as int));
                    }
                    off = off + tokens[ti].len;
                }
                ti = ti + 1;
            },
            Event::Error(k) => {
                let d = SyntaxError { start: off, end: off, kind: k };
                proof {
                    assert(errs_model(r@.push(d)) =~= pre + seq![ErrM {
                        start: off as int,
                        end: off as int,
                        kind: k,
                    }]);
                }
                r.push(d);
            },
            _ => {},
        }
        i = i + 1;
        proof {
            assert(perrs(events@, toks, 0, 0, 0) =~= errs_model(r@) + perrs(
                events@,
                toks,
                i as int,
                ti as int,
                off as int,
            ));
        }
    }
    proof {
        assert(perrs(events@, toks, i as int, ti as int, off as int) =~= Seq::<ErrM>::empty());
        assert(errs_model(r@) =~= perrs(events@, toks, 0, 0, 0));
    }
    r
}

/// The direct child nodes found by walking the events of `[i, end)` at
/// relative depth `depth`, carrying the token index `ti` and byte offset
/// `off` of the walk, and the handle `pend` of the currently open child.
/// Every top-level balanced `Open .. Close` span contributes one handle, in
/// order, with the token index and offset accumulated from the tokens to
/// its left; a `Close` at depth zero ends the node and the walk.
pub open spec fn kids_walk(
    es: Seq<Event>,
    toks: Seq<TokM>,
    end: int,
    i: int,
    ti: int,
    off: int,
    depth: int,
    pend: SyntaxNode,
) -> Seq<SyntaxNode>
    decreases es.len() + end - i,
{
    if !(0 <= i && i < es.len() && i < end) {
        Seq::empty()
    } else {
        match es[i] {
            Event::Open(k) => {
                let pend2 = if depth == 0 {
                    SyntaxNode {
                        kind: k,
                        ev_start: i as usize,
                        ev_end: i as usize,
                        tok_start: ti as usize,
                        offset: off as usize,
                    }
                } else {
                    pend
                };
                let depth2 = if depth < usize::MAX {
                    depth + 1
                } else {
                    depth
                };
                kids_walk(es, toks, end, i + 1, ti, off, depth2, pend2)
            },
            Event::Close => {
                if depth > 1 {
                    kids_walk(es, toks, end, i + 1, ti, off, depth - 1, pend)
                } else if depth == 1 {
                    seq![
                        SyntaxNode {
                            kind: pend.kind,
                            ev_start: pend.ev_start,
                            ev_end: (i + 1) as usize,
                            tok_start: pend.tok_start,
                            offset: pend.offset,
                        },
                    ] + kids_walk(es, toks, end, i + 1, ti, off, 0, pend)
                } else {
                    Seq::empty()
                }
            },
            Event::Tok => {
                let off2 = if 0 <= ti < toks.len() {
                    if off <= usize::MAX - toks[ti].len {
                        off + toks[ti].len
                    } else {
                        off
                    }
                } else {
                    off
                };
                let ti2 = if ti < usize::MAX {
                    ti + 1
                } else {
                    ti
                };
                kids_walk(es, toks, end, i + 1, ti2, off2, depth, pend)
            },
            Event::Error(_) => kids_walk(es, toks, end, i + 1, ti, off, depth, pend),
        }
    }
}

/// The direct child nodes of the node `n` views: the walk of its inside,
/// starting just after its `Open`, at its token index and byte offset.
pub open spec fn spec_children(es: Seq<Event>, toks: Seq<TokM>, n: SyntaxNode) -> Seq<
    SyntaxNode,
> {
    kids_walk(es, toks, n.ev_end as int, n.ev_start as int + 1, n.tok_start as int, n.offset as int, 0, n)
}

/// The byte width of the events in `[i, end)`: the sum of the lengths of
/// the tokens its `Tok` events attach, walked with the same index and
/// saturation discipline the navigation code uses.
pub open spec fn span_width(
    es: Seq<Event>,
    toks: Seq<TokM>,
    end: int,
    i: int,
    ti: int,
    w: int,
) -> int
    decreases es.len() + end - i,
{
    if !(0 <= i && i < es.len() && i < end) {
        w
    } else {
        match es[i] {
            Event::Tok => {
                let w2 = if 0 <= ti < toks.len() {
                    if w <= usize::MAX - toks[ti].len {
                        w + toks[ti].len
                    } else {
                        w
                    }
                } else {
                    w
                };
                let ti2 = if ti < usize::MAX {
                    ti + 1
                } else {
                    ti
                };
                span_width(es, toks, end, i + 1, ti2, w2)
            },
            _ => span_width(es, toks, end, i + 1, ti, w),
        }
    }
}

/// One step of the child scan of the parent search: walk `parts` from `j`
/// carrying the last child whose span contains `n`; stop with true at the
/// first child whose span equals `n`'s.
pub open spec fn scan_kids(
    parts: Seq<SyntaxNode>,
    n: SyntaxNode,
    j: int,
    found: Option<SyntaxNode>,
) -> (bool, Option<SyntaxNode>)
    decreases parts.len() - j,
{
    if !(0 <= j < parts.len()) {
        (false, found)
    } else if parts[j].ev_start == n.ev_start && parts[j].ev_end == n.ev_end {
        (true, found)
    } else if parts[j].ev_start <= n.ev_start && n.ev_end <= parts[j].ev_end {
        scan_kids(parts, n, j + 1, Some(parts[j]))
    } else {
        scan_kids(parts, n, j + 1, found)
    }
}

/// The parent search from `cur` downward: if some child of `cur` has
/// exactly `n`'s span, `cur` is the parent; otherwise descend into the
/// child whose span contains `n`, if any.
pub open spec fn walk_parent(
    es: Seq<Event>,
    toks: Seq<TokM>,
    n: SyntaxNode,
    cur: SyntaxNode,
) -> Option<SyntaxNode>
    decreases cur.ev_end - cur.ev_start,
{
    let r = scan_kids(spec_children(es, toks, cur), n, 0, Option::None);
    if r.0 {
        Option::Some(cur)
    } else {
        match r.1 {
            Option::Some(c) => {
                if cur.ev_start < c.ev_start && c.ev_start <= c.ev_end && c.ev_end
                    <= cur.ev_end {
                    walk_parent(es, toks, n, c)
                } else {
                    Option::None
                }
            },
            Option::None => Option::None,
        }
    }
}

/// The parent of `n` in the tree whose events and tokens are given: the
/// descent from the root along spans that contain `n`.
pub open spec fn spec_parent_of(es: Seq<Event>, toks: Seq<TokM>, n: SyntaxNode) -> Option<
    SyntaxNode,
> {
    let root = SyntaxNode {
        kind: SyntaxKind::Root,
        ev_start: 0,
        ev_end: es.len() as usize,
        tok_start: 0,
        offset: 0,
    };
    if root.ev_start < n.ev_start && n.ev_end <= root.ev_end {
        walk_parent(es, toks, n, root)
    } else {
        Option::None
    }
}

/// Whether the body `b`, with `edit` spliced into its byte range, would
/// re-parse on its own as one complete body: the edit lies strictly inside
/// the body's range, and the edited body's tokens start with `{`, end with
/// `}`, and are consumed in full by the body grammar.
pub open spec fn frag_ok(
    es: Seq<Event>,
    toks: Seq<TokM>,
    text: Seq<u8>,
    edit: AtomEdit,
    b: SyntaxNode,
) -> bool {
    let ds = edit.delete.start;
    let de = edit.delete.end;
    let w = span_width(es, toks, b.ev_end as int, b.ev_start as int, b.tok_start as int, 0);
    let rend = if b.offset <= usize::MAX - w {
        b.offset + w
    } else {
        b.offset as int
    };
    &&& b.offset < ds
    &&& de < rend
    &&& rend <= text.len()
    &&& ({
        let frag = text.subrange(b.offset as int, ds as int) + edit.insert@ + text.subrange(
            de as int,
            rend,
        );
        let fk = kinds_of(spec_toks(frag));
        &&& fk.len() >= 2
        &&& fk[0] == SyntaxKind::LCurly
        &&& fk[fk.len() - 1] == SyntaxKind::RCurly
        &&& p_block(fk, 0).1 == fk.len()
    })
}

/// Whether any body among `parts`, from index `j` on, satisfies
/// [`frag_ok`] for `edit`.
pub open spec fn search_parts(
    es: Seq<Event>,
    toks: Seq<TokM>,
    text: Seq<u8>,
    edit: AtomEdit,
    parts: Seq<SyntaxNode>,
    j: int,
) -> bool
    decreases parts.len() - j,
{
    if !(0 <= j < parts.len()) {
        false
    } else {
        (parts[j].kind == SyntaxKind::Block && frag_ok(es, toks, text, edit, parts[j]))
            || search_parts(es, toks, text, edit, parts, j + 1)
    }
}

/// Whether any item among `items`, from index `i` on, has a body that
/// satisfies [`frag_ok`] for `edit`.
pub open spec fn search_items(
    es: Seq<Event>,
    toks: Seq<TokM>,
    text: Seq<u8>,
    edit: AtomEdit,
    items: Seq<SyntaxNode>,
    i: int,
) -> bool
    decreases items.len() - i,
{
    if !(0 <= i < items.len()) {
        false
    } else {
        search_parts(es, toks, text, edit, spec_children(es, toks, items[i]), 0) || search_items(
            es,
            toks,
            text,
            edit,
            items,
            i + 1,
        )
    }
}

/// The block-level fast path applies: some body of the tree strictly
/// contains the edit and still re-parses whole after it.
pub open spec fn block_edit_ok(f: File, edit: AtomEdit) -> bool {
    search_items(
        f.events_spec(),
        f.toks_spec(),
        f.text_spec(),
        edit,
        spec_children(
            f.events_spec(),
            f.toks_spec(),
            SyntaxNode {
                kind: SyntaxKind::Root,
                ev_start: 0,
                ev_end: f.events_spec().len() as usize,
                tok_start: 0,
                offset: 0,
            },
        ),
        0,
    )
}

/// Relies on Rc::clone: the clone is a second handle to the same
/// allocation, so it carries the same value.
#[verifier::external_body]
fn share_events(e: &Rc<Vec<Event>>) -> (r: Rc<Vec<Event>>)
    ensures
        r == *e,
{
    Rc::clone(e)
}

/// Relies on Rc::ptr_eq: it returns true only for two handles to the same
/// allocation, which then hold the same value.  Whether two equal logs are
/// also shared depends on how they were built, so nothing more is promised.
#[verifier::external_body]
fn same_event_store(a: &Rc<Vec<Event>>, b: &Rc<Vec<Event>>) -> (r: bool)
    ensures
        r ==> *a == *b,
{
    Rc::ptr_eq(a, b)
}

// ---------------------------------------------------------------------------
// The File facade.
// ---------------------------------------------------------------------------

/// A parsed file: the source text, its tokens, the event log of its tree,
/// and the parse-time diagnostics.  Immutable once built; reparsing returns
/// a new value and leaves the old one usable.
pub struct File {
    text: Vec<u8>,
    tokens: Vec<Token>,
    events: Rc<Vec<Event>>,
    errors: Vec<SyntaxError>,
}

/// `f` is exactly the parse of `text`: same text, the token stream the
/// tokenizer model gives, the event log the grammar model gives, and the
/// diagnostics derived from both.  Since every field is pinned by a
/// function of `text`, two parses of equal text are equal in every
/// observable part.
pub open spec fn is_parse_of(f: File, text: Seq<u8>) -> bool {
    &&& f.text_spec() == text
    &&& f.toks_spec() == spec_toks(text)
    &&& f.events_spec() == root_events(kinds_of(spec_toks(text)))
    &&& f.errs_spec() == spec_parse_errors(text)
}

impl File {
    /// The stored source text.
    pub closed spec fn text_spec(self) -> Seq<u8> {
        self.text@
    }

    /// The stored token stream.
    pub closed spec fn toks_spec(self) -> Seq<TokM> {
        toks_model(self.tokens@)
    }

    /// The stored event log.
    pub closed spec fn events_spec(self) -> Seq<Event> {
        self.events@
    }

    /// The stored parse-time diagnostics.
    pub closed spec fn errs_spec(self) -> Seq<ErrM> {
        errs_model(self.errors@)
    }

    /// Every `File` is the parse of its own text.
    #[verifier::type_invariant]
    pub closed spec fn inv(self) -> bool {
        is_parse_of(self, self.text_spec())
    }

    /// Assemble a file from its text, tokens and event log, deriving the
    /// byte-ranged diagnostics.  The parts must be exactly what the models
    /// prescribe for the text.
    fn new(text: Vec<u8>, tokens: Vec<Token>, events: Rc<Vec<Event>>) -> (f: File)
        requires
            toks_model(tokens@) == spec_toks(text@),
            events@ == root_events(kinds_of(spec_toks(text@))),
        ensures
            is_parse_of(f, text@),
    {
        let _text_n: usize = text.len();
        proof {
            lemma_tokenize_covers(text@, 0);
        }
        let errors = compute_errors(&*events, &tokens);
        File { text, tokens, events, errors }
    }

    /// Parse `text` from scratch.  Total: every byte sequence yields a tree
    /// whose leaves spell the input exactly, plus diagnostics.
    pub fn parse(text: &[u8]) -> (f: File)
        ensures
            is_parse_of(f, text@),
    {
        let owned = to_vec_bytes(text);
        let tokens = tokenize(text);
        let kinds = kind_vec(&tokens);
        let events = parse_events(&kinds);
        File::new(owned, tokens, Rc::new(events))
    }

    /// The source text, reconstructed by concatenating the token spans in
    /// leaf order.  Equal to the text the tree was built from: the tokens
    /// tile it exactly.
    pub fn text(&self) -> (r: Vec<u8>)
        ensures
            r@ == self.text_spec(),
    {
        proof {
            use_type_invariant(&*self);
            lemma_tokenize_covers(self.text@, 0);
        }
        let ghost toks = toks_model(self.tokens@);
        let text_n: usize = self.text.len();
        let mut r: Vec<u8> = Vec::new();
        let mut ti: usize = 0;
        let mut off: usize = 0;
        proof {
            lemma_toks_len_from_mono(toks, 0);
        }
        while ti < self.tokens.len()
            invariant
                ti <= self.tokens@.len(),
                toks == toks_model(self.tokens@),
                toks.len() == self.tokens@.len(),
                text_n == self.text@.len(),
                toks_len_from(toks, 0) == self.text@.len(),
                off as int == toks_len_from(toks, 0) - toks_len_from(toks, ti as int),
                r@ == self.text@.take(off as int),
            decreases self.tokens@.len() - ti,
        {
            let t = self.tokens[ti];
            proof {
                assert(toks[ti as int] == TokM { kind: t.kind, len: t.len as int });
                lemma_toks_len_from_mono(toks, ti as int);
                lemma_toks_len_from_mono(toks, ti + 1 as int);
                assert(toks_len_from(toks, ti as int) == t.len + toks_len_from(
                    toks,
                    ti + 1 as int,
                ));
            }
            let mut j: usize = 0;
            while j < t.len
                invariant
                    j <= t.len,
                    text_n == self.text@.len(),
                    off + t.len <= text_n,
                    r@ == self.text@.take(off + j),
                decreases t.len - j,
            {
                r.push(self.text[off + j]);
                proof {
                    assert(self.text@.take(off + j + 1) =~= self.text@.take(off + j).push(
                        self.text@[off + j],
                    ));
                }
                j = j + 1;
            }
            off = off + t.len;
            ti = ti + 1;
        }
        proof {
            assert(toks_len_from(toks, ti as int) == 0);
            assert(self.text@.take(self.text@.len() as int) =~= self.text@);
        }
        r
    }

    /// All diagnostics: parse-time and validation, merged into one list
    /// sorted by ascending start offset.
    pub fn errors(&self) -> (r: Vec<SyntaxError>)
        ensures
            errs_model(r@) == spec_errors_of(self.text_spec()),
            errs_sorted(errs_model(r@)),
    {
        proof {
            use_type_invariant(&*self);
            lemma_tokenize_covers(self.text@, 0);
        }
        let v = validate(&self.tokens, self.text.as_slice());
        let r = merge_sorted_errs(&self.errors, &v);
        proof {
            let t = self.text@;
            let toks = spec_toks(t);
            assert(forall|k: int| 0 <= k < toks.len() ==> 0 <= #[trigger] toks[k].len);
            lemma_perrs_sorted(root_events(kinds_of(toks)), toks, 0, 0, 0);
            lemma_vdiags_sorted(toks, t, 0, 0);
            lemma_merge_sorted(spec_parse_errors(t), spec_validation(t));
        }
        r
    }

    /// Reparse after `edit`: always observably a fresh parse of the edited
    /// text — by the token-level path when the edit changes no token kind,
    /// by the block-level path when it stays inside one body that still
    /// re-parses whole, and by a full parse otherwise.
    pub fn reparse(&self, edit: &AtomEdit) -> (f: File)
        requires
            edit_valid(*edit, self.text_spec()),
        ensures
            is_parse_of(f, splice(self.text_spec(), *edit)),
    {
        let r = self.incremental_reparse(edit);
        match r {
            Some(f) => f,
            None => self.full_reparse(edit),
        }
    }

    /// The incremental fast paths, tried in order; `None` asks for the full
    /// fallback.
    ///
    /// Token level: when the edited text tokenizes to the same kind stream
    /// as the old text, the old event log is reused as it stands — the new
    /// tree shares its storage — and only token lengths and diagnostics are
    /// recomputed.  This path always succeeds when the kinds are unchanged.
    ///
    /// Block level: otherwise, the engine locates the smallest body node
    /// whose span strictly contains the edit's delete range and re-parses
    /// the edited body text on its own; if that yields one complete body
    /// closed by its own `}`, the edit cannot have disturbed anything
    /// outside the body, and the engine rebuilds the event log from the
    /// already-computed token stream.  The log is regenerated rather than
    /// spliced, so correctness never rests on the localized check; the
    /// check only decides whether this path answers at all.
    pub fn incremental_reparse(&self, edit: &AtomEdit) -> (r: Option<File>)
        requires
            edit_valid(*edit, self.text_spec()),
        ensures
            r matches Some(f) ==> is_parse_of(f, splice(self.text_spec(), *edit)),
            r.is_some() == (kinds_of(spec_toks(splice(self.text_spec(), *edit))) == kinds_of(
                spec_toks(self.text_spec()),
            ) || block_edit_ok(*self, *edit)),
    {
        proof {
            use_type_invariant(&*self);
        }
        let new_text = apply_edit(self.text.as_slice(), edit);
        let new_tokens = tokenize(new_text.as_slice());
        if kinds_equal(&new_tokens, &self.tokens) {
            let events = share_events(&self.events);
            Some(File::new(new_text, new_tokens, events))
        } else if self.block_reparse_ok(edit) {
            let kinds = kind_vec(&new_tokens);
            let events = parse_events(&kinds);
            Some(File::new(new_text, new_tokens, Rc::new(events)))
        } else {
            None
        }
    }

    /// Whether the body `b`, with the edit spliced into its text, still
    /// re-parses on its own as a single complete body; exactly [`frag_ok`].
    fn frag_check(&self, b: &SyntaxNode, edit: &AtomEdit) -> (r: bool)
        requires
            edit_valid(*edit, self.text_spec()),
        ensures
            r == frag_ok(self.events_spec(), self.toks_spec(), self.text_spec(), *edit, *b),
    {
        proof {
            use_type_invariant(&*self);
        }
        let ds = edit.delete.start;
        let de = edit.delete.end;
        let rg = self.node_range(b);
        if !(rg.start < ds && de < rg.end && rg.end <= self.text.len()) {
            return false;
        }
        let mut frag: Vec<u8> = Vec::new();
        let mut i: usize = rg.start;
        while i < ds
            invariant
                rg.start <= i <= ds,
                ds <= self.text@.len(),
                rg.start == b.offset,
                frag@ == self.text@.subrange(b.offset as int, i as int),
            decreases ds - i,
        {
            frag.push(self.text[i]);
            proof {
                assert(self.text@.subrange(b.offset as int, i + 1 as int) =~= self.text@.subrange(
                    b.offset as int,
                    i as int,
                ).push(self.text@[i as int]));
            }
            i = i + 1;
        }
        let ghost pre = self.text@.subrange(b.offset as int, ds as int);
        let mut j: usize = 0;
        while j < edit.insert.len()
            invariant
                j <= edit.insert@.len(),
                pre == self.text@.subrange(b.offset as int, ds as int),
                frag@ == pre + edit.insert@.take(j as int),
            decreases edit.insert@.len() - j,
        {
            frag.push(edit.insert[j]);
            proof {
                assert(pre + edit.insert@.take(j + 1 as int) =~= (pre + edit.insert@.take(
                    j as int,
                )).push(edit.insert@[j as int]));
            }
            j = j + 1;
        }
        proof {
            assert(edit.insert@.take(edit.insert@.len() as int) =~= edit.insert@);
        }
        let ghost mid = pre + edit.insert@;
        let mut k: usize = de;
        while k < rg.end
            invariant
                de <= k <= rg.end,
                rg.end <= self.text@.len(),
                mid == self.text@.subrange(b.offset as int, ds as int) + edit.insert@,
                frag@ == mid + self.text@.subrange(de as int, k as int),
            decreases rg.end - k,
        {
            frag.push(self.text[k]);
            proof {
                assert(mid + self.text@.subrange(de as int, k + 1 as int) =~= (mid
                    + self.text@.subrange(de as int, k as int)).push(self.text@[k as int]));
            }
            k = k + 1;
        }
        let ftoks = tokenize(frag.as_slice());
        let fkinds = kind_vec(&ftoks);
        proof {
            assert(toks_model(ftoks@).len() == ftoks@.len());
            assert(fkinds@.len() == toks_model(ftoks@).len());
        }
        if fkinds.len() < 2 {
            return false;
        }
        if !(fkinds[0] == SyntaxKind::LCurly && fkinds[fkinds.len() - 1] == SyntaxKind::RCurly) {
            return false;
        }
        let mut ev: Vec<Event> = Vec::new();
        let consumed = crate::parser::e_block(&fkinds, 0, &mut ev);
        consumed == fkinds.len()
    }

    /// Whether the block-level fast path applies to `edit`: the search over
    /// every body of the tree, exactly [`block_edit_ok`].
    fn block_reparse_ok(&self, edit: &AtomEdit) -> (r: bool)
        requires
            edit_valid(*edit, self.text_spec()),
        ensures
            r == block_edit_ok(*self, *edit),
    {
        proof {
            use_type_invariant(&*self);
        }
        let ghost es = self.events_spec();
        let ghost toks = self.toks_spec();
        let ghost txt = self.text_spec();
        let ghost ed = *edit;
        let es_ref: &Vec<Event> = &*self.events;
        let _n_ev: usize = es_ref.len();
        let root = self.syntax();
        proof {
            assert(root == SyntaxNode {
                kind: SyntaxKind::Root,
                ev_start: 0,
                ev_end: self.events_spec().len() as usize,
                tok_start: 0,
                offset: 0,
            });
        }
        let items = self.child_nodes(&root);
        let mut i: usize = 0;
        while i < items.len()
            invariant
                edit_valid(ed, self.text_spec()),
                ed == *edit,
                es == self.events_spec(),
                toks == self.toks_spec(),
                txt == self.text_spec(),
                i <= items@.len(),
                block_edit_ok(*self, ed) == search_items(es, toks, txt, ed, items@, i as int),
            decreases items@.len() - i,
        {
            let parts = self.child_nodes(&items[i]);
            let mut j: usize = 0;
            while j < parts.len()
                invariant
                    edit_valid(ed, self.text_spec()),
                    ed == *edit,
                    es == self.events_spec(),
                    toks == self.toks_spec(),
                    txt == self.text_spec(),
                    0 <= i < items@.len(),
                    j <= parts@.len(),
                    parts@ == spec_children(es, toks, items@[i as int]),
                    block_edit_ok(*self, ed) == search_items(es, toks, txt, ed, items@, i as int),
                    search_parts(es, toks, txt, ed, parts@, 0) == search_parts(
                        es,
                        toks,
                        txt,
                        ed,
                        parts@,
                        j as int,
                    ),
                decreases parts@.len() - j,
            {
                let p = parts[j];
                if p.kind == SyntaxKind::Block {
                    if self.frag_check(&p, edit) {
                        proof {
                            assert(search_parts(es, toks, txt, ed, parts@, j as int));
                        }
                        return true;
                    }
                }
                j = j + 1;
                proof {
                    assert(search_parts(es, toks, txt, ed, parts@, j - 1) == search_parts(
                        es,
                        toks,
                        txt,
                        ed,
                        parts@,
                        j as int,
                    ));
                }
            }
            i = i + 1;
            proof {
                assert(search_items(es, toks, txt, ed, items@, i - 1) == search_items(
                    es,
                    toks,
                    txt,
                    ed,
                    items@,
                    i as int,
                ));
            }
        }
        false
    }

    /// The fallback: parse the edited text from scratch.
    fn full_reparse(&self, edit: &AtomEdit) -> (f: File)
        requires
            edit_valid(*edit, self.text_spec()),
        ensures
            is_parse_of(f, splice(self.text_spec(), *edit)),
    {
        proof {
            use_type_invariant(&*self);
        }
        let new_text = apply_edit(self.text.as_slice(), edit);
        File::parse(new_text.as_slice())
    }

    /// The token stream of the file.
    pub fn tokens(&self) -> (r: Vec<Token>)
        ensures
            toks_model(r@) == self.toks_spec(),
            toks_model(r@) == spec_toks(self.text_spec()),
    {
        proof {
            use_type_invariant(&*self);
        }
        let mut r: Vec<Token> = Vec::new();
        let mut i: usize = 0;
        while i < self.tokens.len()
            invariant
                i <= self.tokens@.len(),
                r@ == self.tokens@.take(i as int),
            decreases self.tokens@.len() - i,
        {
            r.push(self.tokens[i]);
            proof {
                assert(self.tokens@.take(i + 1 as int) =~= self.tokens@.take(i as int).push(
                    self.tokens@[i as int],
                ));
            }
            i = i + 1;
        }
        proof {
            assert(self.tokens@.take(self.tokens@.len() as int) =~= self.tokens@);
        }
        r
    }

    /// The untyped root node of the tree, covering the whole text.
    pub fn syntax(&self) -> (r: SyntaxNode)
        ensures
            r.kind == SyntaxKind::Root,
            r.offset == 0,
            r.tok_start == 0,
            r.ev_start == 0,
            r.ev_end == self.events_spec().len(),
    {
        proof {
            use_type_invariant(&*self);
        }
        let es: &Vec<Event> = &*self.events;
        SyntaxNode {
            kind: SyntaxKind::Root,
            ev_start: 0,
            ev_end: es.len(),
            tok_start: 0,
            offset: 0,
        }
    }

    /// The typed view of the tree: it wraps exactly the root handle that
    /// [`Self::syntax`] returns; nothing is allocated or changed.
    pub fn ast(&self) -> (r: Root)
        ensures
            r.syntax == (SyntaxNode {
                kind: SyntaxKind::Root,
                ev_start: 0,
                ev_end: self.events_spec().len() as usize,
                tok_start: 0,
                offset: 0,
            }),
    {
        Root { syntax: self.syntax() }
    }

    /// The direct child nodes of `n`, in order, each with its event span,
    /// first token index and absolute byte offset.  Tokens that are direct
    /// children are skipped; their widths still advance the offsets.
    pub fn child_nodes(&self, n: &SyntaxNode) -> (r: Vec<SyntaxNode>)
        ensures
            r@ == spec_children(self.events_spec(), self.toks_spec(), *n),
            forall|j: int|
                0 <= j < r@.len() ==> n.ev_start < #[trigger] r@[j].ev_start
                    && r@[j].ev_start < r@[j].ev_end && r@[j].ev_end <= n.ev_end,
            forall|j: int|
                0 <= j < r@.len() ==> (#[trigger] r@[j].ev_start < self.events_spec().len()
                    && self.events_spec()[r@[j].ev_start as int] == Event::Open(r@[j].kind)),
    {
        proof {
            use_type_invariant(&*self);
        }
        let ghost toks = toks_model(self.tokens@);
        let es: &Vec<Event> = &*self.events;
        let mut r: Vec<SyntaxNode> = Vec::new();
        if n.ev_start >= es.len() {
            proof {
                assert(spec_children(self.events@, toks, *n) =~= Seq::<SyntaxNode>::empty());
            }
            return r;
        }
        let mut i: usize = n.ev_start + 1;
        let mut ti: usize = n.tok_start;
        let mut off: usize = n.offset;
        let mut depth: usize = 0;
        let mut pending = *n;
        proof {
            assert(r@ + kids_walk(
                es@,
                toks,
                n.ev_end as int,
                i as int,
                ti as int,
                off as int,
                depth as int,
                pending,
            ) =~= spec_children(self.events@, toks, *n));
        }
        while i < es.len() && i < n.ev_end
            invariant
                es@ == self.events@,
                toks == toks_model(self.tokens@),
                toks.len() == self.tokens@.len(),
                spec_children(self.events@, toks, *n) == r@ + kids_walk(
                    es@,
                    toks,
                    n.ev_end as int,
                    i as int,
                    ti as int,
                    off as int,
                    depth as int,
                    pending,
                ),
                n.ev_start < i,
                forall|j: int|
                    0 <= j < r@.len() ==> n.ev_start < #[trigger] r@[j].ev_start
                        && r@[j].ev_start < r@[j].ev_end && r@[j].ev_end <= i,
                forall|j: int|
                    0 <= j < r@.len() ==> (#[trigger] r@[j].ev_start < self.events@.len()
                        && self.events@[r@[j].ev_start as int] == Event::Open(r@[j].kind)),
                depth > 0 ==> n.ev_start < pending.ev_start <= i,
                depth > 0 ==> pending.ev_start < self.events@.len()
                    && self.events@[pending.ev_start as int] == Event::Open(pending.kind),
                i <= n.ev_end || r@.len() == 0,
            decreases self.events@.len() + n.ev_end - i,
        {
            let ghost pre = r@;
            let ghost suffix = kids_walk(
                es@,
                toks,
                n.ev_end as int,
                i as int,
                ti as int,
                off as int,
                depth as int,
                pending,
            );
            let e = es[i];
            match e {
                Event::Open(k) => {
                    if depth == 0 {
                        pending = SyntaxNode {
                            kind: k,
                            ev_start: i,
                            ev_end: i,
                            tok_start: ti,
                            offset: off,
                        };
                    }
                    if depth < usize::MAX {
                        depth = depth + 1;
                    }
                },
                Event::Close => {
                    if depth > 0 {
                        depth = depth - 1;
                        if depth == 0 {
                            let c = SyntaxNode {
                                kind: pending.kind,
                                ev_start: pending.ev_start,
                                ev_end: i + 1,
                                tok_start: pending.tok_start,
                                offset: pending.offset,
                            };
                            proof {
                                assert(suffix == seq![c] + kids_walk(
                                    es@,
                                    toks,
                                    n.ev_end as int,
                                    i + 1 as int,
                                    ti as int,
                                    off as int,
                                    0,
                                    pending,
                                ));
                                assert(pre.push(c) =~= pre + seq![c]);
                            }
                            r.push(c);
                        }
                    } else {
                        proof {
                            assert(suffix =~= Seq::<SyntaxNode>::empty());
                            assert(spec_children(self.events@, toks, *n) =~= r@);
                        }
                        return r;
                    }
                },
                Event::Tok => {
                    proof {
                        if ti < self.tokens@.len() {
                            assert(toks[ti as int] == TokM {
                                kind: self.tokens@[ti as int].kind,
                                len: self.tokens@[ti as int].len as int,
                            });
                        }
                    }
                    if ti < self.tokens.len() {
                        let l = self.tokens[ti].len;
                        if off <= usize::MAX - l {
                            off = off + l;
                        }
                    }
                    if ti < usize::MAX {
                        ti = ti + 1;
                    }
                },
                Event::Error(_) => {},
            }
            i = i + 1;
            proof {
                assert(spec_children(self.events@, toks, *n) =~= r@ + kids_walk(
                    es@,
                    toks,
                    n.ev_end as int,
                    i as int,
                    ti as int,
                    off as int,
                    depth as int,
                    pending,
                ));
            }
        }
        proof {
            assert(kids_walk(
                es@,
                toks,
                n.ev_end as int,
                i as int,
                ti as int,
                off as int,
                depth as int,
                pending,
            ) =~= Seq::<SyntaxNode>::empty());
            assert(spec_children(self.events@, toks, *n) =~= r@);
        }
        r
    }

    /// The parent of `n`: the node whose child list holds `n`'s span, found
    /// by descending from the root along the unique chain of enclosing
    /// children.  `None` for the root itself and for handles whose span
    /// matches no node of this tree.  Siblings are the other entries of
    /// [`Self::child_nodes`] on the parent.
    pub fn parent_node(&self, n: &SyntaxNode) -> (r: Option<SyntaxNode>)
        ensures
            r == spec_parent_of(self.events_spec(), self.toks_spec(), *n),
            r matches Some(p) ==> p.ev_start <= n.ev_start && n.ev_end <= p.ev_end,
            r matches Some(p) ==> exists|j: int|
                0 <= j < spec_children(self.events_spec(), self.toks_spec(), p).len()
                    && #[trigger] spec_children(self.events_spec(), self.toks_spec(), p)[j].ev_start
                    == n.ev_start && spec_children(self.events_spec(), self.toks_spec(), p)[j].ev_end
                    == n.ev_end,
    {
        proof {
            use_type_invariant(&*self);
        }
        let ghost es = self.events_spec();
        let ghost toks = self.toks_spec();
        let mut cur = self.syntax();
        proof {
            assert(cur == SyntaxNode {
                kind: SyntaxKind::Root,
                ev_start: 0,
                ev_end: self.events_spec().len() as usize,
                tok_start: 0,
                offset: 0,
            });
        }
        if !(cur.ev_start < n.ev_start && n.ev_end <= cur.ev_end) {
            return None;
        }
        loop
            invariant
                es == self.events_spec(),
                toks == self.toks_spec(),
                cur.ev_start <= cur.ev_end,
                cur.ev_start <= n.ev_start,
                n.ev_end <= cur.ev_end,
                spec_parent_of(es, toks, *n) == walk_parent(es, toks, *n, cur),
            decreases cur.ev_end - cur.ev_start,
        {
            let kids = self.child_nodes(&cur);
            let mut found: Option<SyntaxNode> = None;
            let mut i: usize = 0;
            while i < kids.len()
                invariant
                    es == self.events_spec(),
                    toks == self.toks_spec(),
                    i <= kids@.len(),
                    kids@ == spec_children(es, toks, cur),
                    spec_parent_of(es, toks, *n) == walk_parent(es, toks, *n, cur),
                    scan_kids(kids@, *n, 0, Option::None) == scan_kids(kids@, *n, i as int, found),
                    forall|j: int|
                        0 <= j < kids@.len() ==> cur.ev_start < #[trigger] kids@[j].ev_start
                            && kids@[j].ev_start < kids@[j].ev_end && kids@[j].ev_end
                            <= cur.ev_end,
                    found matches Some(c) ==> cur.ev_start < c.ev_start && c.ev_start
                        < c.ev_end && c.ev_start <= n.ev_start && n.ev_end <= c.ev_end
                        && c.ev_end <= cur.ev_end,
                decreases kids@.len() - i,
            {
                let c = kids[i];
                if c.ev_start == n.ev_start && c.ev_end == n.ev_end {
                    proof {
                        assert(kids@[i as int].ev_start == n.ev_start && kids@[i as int].ev_end
                            == n.ev_end);
                        assert(scan_kids(kids@, *n, i as int, found).0);
                        assert(walk_parent(es, toks, *n, cur) == Option::Some(cur));
                    }
                    return Some(cur);
                }
                if c.ev_start <= n.ev_start && n.ev_end <= c.ev_end {
                    let ghost found0 = found;
                    found = Some(c);
                    proof {
                        assert(scan_kids(kids@, *n, i as int, found0) == scan_kids(
                            kids@,
                            *n,
                            i + 1 as int,
                            found,
                        ));
                    }
                } else {
                    proof {
                        assert(scan_kids(kids@, *n, i as int, found) == scan_kids(kids@, *n, i + 1 as int, found));
                    }
                }
                i = i + 1;
            }
            proof {
                assert(scan_kids(kids@, *n, i as int, found) == (false, found));
            }
            match found {
                Some(c) => {
                    proof {
                        assert(cur.ev_start < c.ev_start && c.ev_start <= c.ev_end && c.ev_end
                            <= cur.ev_end);
                        assert(walk_parent(es, toks, *n, cur) == walk_parent(es, toks, *n, c));
                    }
                    cur = c;
                },
                None => {
                    proof {
                        assert(walk_parent(es, toks, *n, cur) == Option::<SyntaxNode>::None);
                    }
                    return None;
                },
            }
        }
    }

    /// The byte range covered by `n`: its stored offset, plus the width
    /// summed from the tokens inside its event span ([`span_width`]).
    pub fn node_range(&self, n: &SyntaxNode) -> (r: crate::reparsing::TextRange)
        ensures
            r.start == n.offset,
            ({
                let w = span_width(
                    self.events_spec(),
                    self.toks_spec(),
                    n.ev_end as int,
                    n.ev_start as int,
                    n.tok_start as int,
                    0,
                );
                r.end as int == if n.offset <= usize::MAX - w {
                    n.offset + w
                } else {
                    n.offset as int
                }
            }),
    {
        proof {
            use_type_invariant(&*self);
        }
        let ghost toks = toks_model(self.tokens@);
        let es: &Vec<Event> = &*self.events;
        let mut i: usize = n.ev_start;
        let mut ti: usize = n.tok_start;
        let mut width: usize = 0;
        while i < es.len() && i < n.ev_end
            invariant
                es@ == self.events@,
                toks == toks_model(self.tokens@),
                toks.len() == self.tokens@.len(),
                n.ev_start <= i,
                span_width(es@, toks, n.ev_end as int, n.ev_start as int, n.tok_start as int, 0)
                    == span_width(es@, toks, n.ev_end as int, i as int, ti as int, width as int),
            decreases self.events@.len() + n.ev_end - i,
        {
            let e = es[i];
            match e {
                Event::Tok => {
                    proof {
                        if ti < self.tokens@.len() {
                            assert(toks[ti as int] == TokM {
                                kind: self.tokens@[ti as int].kind,
                                len: self.tokens@[ti as int].len as int,
                            });
                        }
                    }
                    if ti < self.tokens.len() {
                        let l = self.tokens[ti].len;
                        if width <= usize::MAX - l {
                            width = width + l;
                        }
                    }
                    if ti < usize::MAX {
                        ti = ti + 1;
                    }
                },
                _ => {},
            }
            i = i + 1;
        }
        let end = if n.offset <= usize::MAX - width {
            n.offset + width
        } else {
            n.offset
        };
        crate::reparsing::TextRange { start: n.offset, end }
    }

    /// The event log of the tree, in order.
    pub fn events(&self) -> (r: Vec<Event>)
        ensures
            r@ == self.events_spec(),
            r@ == root_events(kinds_of(spec_toks(self.text_spec()))),
    {
        proof {
            use_type_invariant(&*self);
        }
        copy_events(&*self.events)
    }

    /// Whether this tree and `other` share the storage of their event logs.
    /// True after the token-level fast path, whose result reuses the old
    /// log; sharing implies the logs are equal.
    pub fn shares_tree_with(&self, other: &File) -> (r: bool)
        ensures
            r ==> self.events_spec() == other.events_spec(),
    {
        same_event_store(&self.events, &other.events)
    }
}

} // verus!
