//! The tokenizer: text to a stream of `(kind, length)` tokens.
//!
//! The scanner is total: it is defined for every byte sequence, including
//! malformed UTF-8, and always makes progress (every token has length at
//! least one).  Concatenating the token spans in order reproduces the input
//! exactly; that is the losslessness law the rest of the crate builds on.
//!
//! The mathematical model is [`spec_tokenize`]; the executable [`tokenize`]
//! is proved to implement it.

use vstd::prelude::*;

use crate::kinds::SyntaxKind;

verus! {

/// A scanned token: kind plus byte length.  Token text is not stored; it is
/// the corresponding span of the input.
#[derive(Clone, Copy, Debug, PartialEq, Eq, Structural)]
pub struct Token {
    /// The token's kind.
    pub kind: SyntaxKind,
    /// The token's length in bytes; always at least 1.
    pub len: usize,
}

/// The mathematical counterpart of [`Token`], with unbounded length.
pub struct TokM {
    /// The token's kind.
    pub kind: SyntaxKind,
    /// The token's length in bytes.
    pub len: int,
}

/// The model of a `Vec<Token>`.
pub open spec fn toks_model(s: Seq<Token>) -> Seq<TokM> {
    s.map(|i: int, t: Token| TokM { kind: t.kind, len: t.len as int })
}

/// The kind sequence of a token sequence; the grammar reads only this.
pub open spec fn kinds_of(s: Seq<TokM>) -> Seq<SyntaxKind> {
    s.map(|i: int, t: TokM| t.kind)
}

/// Total byte length of the tokens from index `i` on.
pub open spec fn toks_len_from(s: Seq<TokM>, i: int) -> int
    decreases s.len() - i,
{
    if !(0 <= i < s.len()) {
        0
    } else {
        s[i].len + toks_len_from(s, i + 1)
    }
}

/// Total byte length of a token sequence.
pub open spec fn toks_len(s: Seq<TokM>) -> int {
    toks_len_from(s, 0)
}

/// Suffix sums are nonnegative and shrink as the start index grows, as long
/// as every length is nonnegative.
pub proof fn lemma_toks_len_from_mono(s: Seq<TokM>, i: int)
    requires
        0 <= i,
        forall|k: int| 0 <= k < s.len() ==> 0 <= #[trigger] s[k].len,
    ensures
        0 <= toks_len_from(s, i),
        forall|j: int|
            i <= j ==> #[trigger] toks_len_from(s, j) <= toks_len_from(s, i),
    decreases s.len() - i,
{
    if i < s.len() {
        lemma_toks_len_from_mono(s, i + 1);
        assert forall|j: int| i <= j implies #[trigger] toks_len_from(s, j) <= toks_len_from(
            s,
            i,
        ) by {
            if j > i {
                assert(toks_len_from(s, j) <= toks_len_from(s, i + 1));
            }
        }
    } else {
        assert forall|j: int| i <= j implies #[trigger] toks_len_from(s, j) <= toks_len_from(
            s,
            i,
        ) by {
            lemma_toks_len_from_zero_past(s, j);
        }
    }
}

/// Past the end of the sequence every suffix sum is zero.
pub proof fn lemma_toks_len_from_zero_past(s: Seq<TokM>, i: int)
    requires
        i >= s.len() || i < 0,
    ensures
        toks_len_from(s, i) == 0,
{
}

/// Shifting one prepended token: the suffix sums of `seq![t] + s` from 1 on
/// are the suffix sums of `s`.
pub proof fn lemma_toks_len_shift(t: TokM, s: Seq<TokM>, i: int)
    requires
        0 <= i,
    ensures
        toks_len_from(seq![t] + s, i + 1) == toks_len_from(s, i),
    decreases s.len() - i,
{
    if i < s.len() {
        assert((seq![t] + s)[i + 1] == s[i]);
        lemma_toks_len_shift(t, s, i + 1);
    }
}

// ---------------------------------------------------------------------------
// Byte classes.
// ---------------------------------------------------------------------------

/// Whitespace: space, tab, line feed, carriage return.
pub open spec fn is_ws_byte(b: u8) -> bool {
    b == 32 || b == 9 || b == 10 || b == 13
}

/// ASCII decimal digit.
pub open spec fn is_digit_byte(b: u8) -> bool {
    48 <= b && b <= 57
}

/// ASCII identifier start: letter or underscore.
pub open spec fn is_ident_start_ascii(b: u8) -> bool {
    (97 <= b && b <= 122) || (65 <= b && b <= 90) || b == 95
}

/// ASCII identifier continuation: letter, digit or underscore.
pub open spec fn is_ident_cont_ascii(b: u8) -> bool {
    is_ident_start_ascii(b) || is_digit_byte(b)
}

/// UTF-8 continuation byte.
pub open spec fn is_cont_byte(b: u8) -> bool {
    128 <= b && b < 192
}

// ---------------------------------------------------------------------------
// Identifier classification of non-ASCII code points, via unicode-xid.
// ---------------------------------------------------------------------------

/// Whether a code point may start an identifier, as unicode-xid's
/// `is_xid_start` decides it; a function of the code point alone.
pub uninterp spec fn xid_start_of(c: int) -> bool;

/// Whether a code point may continue an identifier, as unicode-xid's
/// `is_xid_continue` decides it; a function of the code point alone.
pub uninterp spec fn xid_continue_of(c: int) -> bool;

/// Relies on unicode_xid::UnicodeXID::is_xid_start: a pure table lookup on
/// the code point; values that are no `char` start no identifier.
#[verifier::external_body]
pub(crate) fn is_xid_start(c: u32) -> (r: bool)
    ensures
        r == xid_start_of(c as int),
{
    match char::from_u32(c) {
        Some(ch) => unicode_xid::UnicodeXID::is_xid_start(ch),
        None => false,
    }
}

/// Relies on unicode_xid::UnicodeXID::is_xid_continue: a pure table lookup on
/// the code point; values that are no `char` continue no identifier.
#[verifier::external_body]
pub(crate) fn is_xid_continue(c: u32) -> (r: bool)
    ensures
        r == xid_continue_of(c as int),
{
    match char::from_u32(c) {
        Some(ch) => unicode_xid::UnicodeXID::is_xid_continue(ch),
        None => false,
    }
}

// ---------------------------------------------------------------------------
// UTF-8 decoding of a single code point.
// ---------------------------------------------------------------------------

/// The result of decoding one code point: how many bytes it spans, whether
/// the byte sequence was well-formed, and the decoded value.
pub struct DecM {
    /// Bytes consumed, between 1 and 4; never runs past the end of the text.
    pub len: int,
    /// Whether the bytes formed a valid sequence.
    pub valid: bool,
    /// The decoded code point (0 when invalid).
    pub code: int,
}

/// Decode the code point starting at `pos`.  Malformed sequences consume a
/// single byte, which guarantees progress.
pub open spec fn utf8_at(text: Seq<u8>, pos: int) -> DecM {
    if !(0 <= pos < text.len()) {
        DecM { len: 1, valid: false, code: 0 }
    } else {
        let b0 = text[pos];
        if b0 < 128 {
            DecM { len: 1, valid: true, code: b0 as int }
        } else if 194 <= b0 && b0 < 224 {
            if pos + 1 < text.len() && is_cont_byte(text[pos + 1]) {
                DecM { len: 2, valid: true, code: (b0 - 192) * 64 + (text[pos + 1] - 128) }
            } else {
                DecM { len: 1, valid: false, code: 0 }
            }
        } else if 224 <= b0 && b0 < 240 {
            if pos + 2 < text.len() && is_cont_byte(text[pos + 1]) && is_cont_byte(text[pos + 2]) {
                DecM {
                    len: 3,
                    valid: true,
                    code: (b0 - 224) * 4096 + (text[pos + 1] - 128) * 64 + (text[pos + 2] - 128),
                }
            } else {
                DecM { len: 1, valid: false, code: 0 }
            }
        } else if 240 <= b0 && b0 < 245 {
            if pos + 3 < text.len() && is_cont_byte(text[pos + 1]) && is_cont_byte(text[pos + 2])
                && is_cont_byte(text[pos + 3]) {
                DecM {
                    len: 4,
                    valid: true,
                    code: (b0 - 240) * 262144 + (text[pos + 1] - 128) * 4096
                        + (text[pos + 2] - 128) * 64 + (text[pos + 3] - 128),
                }
            } else {
                DecM { len: 1, valid: false, code: 0 }
            }
        } else {
            DecM { len: 1, valid: false, code: 0 }
        }
    }
}

// ---------------------------------------------------------------------------
// Scanning runs.
// ---------------------------------------------------------------------------

/// Length of the whitespace run starting at `pos`.
pub open spec fn ws_len(text: Seq<u8>, pos: int) -> int
    decreases text.len() - pos,
{
    if 0 <= pos < text.len() && is_ws_byte(text[pos]) {
        1 + ws_len(text, pos + 1)
    } else {
        0
    }
}

/// Length of the digit run starting at `pos`.
pub open spec fn digits_len(text: Seq<u8>, pos: int) -> int
    decreases text.len() - pos,
{
    if 0 <= pos < text.len() && is_digit_byte(text[pos]) {
        1 + digits_len(text, pos + 1)
    } else {
        0
    }
}

/// Length of the rest of the line starting at `pos` (stops before a line
/// feed, or at the end of the text).
pub open spec fn line_len(text: Seq<u8>, pos: int) -> int
    decreases text.len() - pos,
{
    if 0 <= pos < text.len() && text[pos] != 10 {
        1 + line_len(text, pos + 1)
    } else {
        0
    }
}

/// Length of the identifier continuation run starting at `pos`: ASCII
/// continuation bytes, and non-ASCII code points with `XID_Continue`.
pub open spec fn ident_cont_len(text: Seq<u8>, pos: int) -> int
    decreases text.len() - pos,
{
    if !(0 <= pos < text.len()) {
        0
    } else {
        let b = text[pos];
        if is_ident_cont_ascii(b) {
            1 + ident_cont_len(text, pos + 1)
        } else if b >= 128 {
            let d0 = utf8_at(text, pos);
            let d = if d0.len <= text.len() - pos {
                d0.len
            } else {
                text.len() - pos
            };
            if d0.valid && xid_continue_of(d0.code) {
                d + ident_cont_len(text, pos + d)
            } else {
                0
            }
        } else {
            0
        }
    }
}

/// The result of scanning a string body.
pub struct ScanStr {
    /// Index just past the closing quote, or the end of the text.
    pub end: int,
    /// Whether a closing quote was found.
    pub terminated: bool,
}

/// Scan a string body from `pos` (just after the opening quote): a backslash
/// escapes the next byte; an unescaped quote ends the string.
pub open spec fn scan_str(text: Seq<u8>, pos: int) -> ScanStr
    decreases text.len() - pos,
{
    if !(0 <= pos < text.len()) {
        ScanStr { end: if pos <= text.len() { pos } else { text.len() as int }, terminated: false }
    } else if text[pos] == 34 {
        ScanStr { end: pos + 1, terminated: true }
    } else if text[pos] == 92 {
        if pos + 1 < text.len() {
            scan_str(text, pos + 2)
        } else {
            ScanStr { end: text.len() as int, terminated: false }
        }
    } else {
        scan_str(text, pos + 1)
    }
}

// ---------------------------------------------------------------------------
// One token, and the whole stream.
// ---------------------------------------------------------------------------

/// The token starting at `pos`, by greedy longest match.
pub open spec fn token_at(text: Seq<u8>, pos: int) -> TokM {
    if !(0 <= pos < text.len()) {
        TokM { kind: SyntaxKind::Error, len: 1 }
    } else {
        let b = text[pos];
        if is_ws_byte(b) {
            TokM { kind: SyntaxKind::Whitespace, len: ws_len(text, pos) }
        } else if b == 47 && pos + 1 < text.len() && text[pos + 1] == 47 {
            TokM { kind: SyntaxKind::Comment, len: 2 + line_len(text, pos + 2) }
        } else if is_ident_start_ascii(b) {
            TokM { kind: SyntaxKind::Ident, len: 1 + ident_cont_len(text, pos + 1) }
        } else if is_digit_byte(b) {
            TokM { kind: SyntaxKind::IntNumber, len: digits_len(text, pos) }
        } else if b == 34 {
            TokM { kind: SyntaxKind::Str, len: scan_str(text, pos + 1).end - pos }
        } else if b == 40 {
            TokM { kind: SyntaxKind::LParen, len: 1 }
        } else if b == 41 {
            TokM { kind: SyntaxKind::RParen, len: 1 }
        } else if b == 123 {
            TokM { kind: SyntaxKind::LCurly, len: 1 }
        } else if b == 125 {
            TokM { kind: SyntaxKind::RCurly, len: 1 }
        } else if b == 43 {
            TokM { kind: SyntaxKind::Plus, len: 1 }
        } else if b == 45 {
            TokM { kind: SyntaxKind::Minus, len: 1 }
        } else if b == 42 {
            TokM { kind: SyntaxKind::Star, len: 1 }
        } else if b == 44 {
            TokM { kind: SyntaxKind::Comma, len: 1 }
        } else if b == 59 {
            TokM { kind: SyntaxKind::Semi, len: 1 }
        } else if b >= 128 {
            let d0 = utf8_at(text, pos);
            let d = if d0.len <= text.len() - pos {
                d0.len
            } else {
                text.len() - pos
            };
            if d0.valid && xid_start_of(d0.code) {
                TokM { kind: SyntaxKind::Ident, len: d + ident_cont_len(text, pos + d) }
            } else {
                TokM { kind: SyntaxKind::Error, len: d }
            }
        } else {
            TokM { kind: SyntaxKind::Error, len: 1 }
        }
    }
}

/// The token stream of the suffix of `text` starting at `pos`.
pub open spec fn spec_tokenize(text: Seq<u8>, pos: int) -> Seq<TokM>
    decreases text.len() - pos,
{
    if !(0 <= pos < text.len()) {
        Seq::empty()
    } else {
        let t = token_at(text, pos);
        let l = if 1 <= t.len && pos + t.len <= text.len() {
            t.len
        } else {
            1
        };
        seq![TokM { kind: t.kind, len: l }] + spec_tokenize(text, pos + l)
    }
}

/// The whole token stream of `text`.
pub open spec fn spec_toks(text: Seq<u8>) -> Seq<TokM> {
    spec_tokenize(text, 0)
}

// ---------------------------------------------------------------------------
// Bounds lemmas: every scan stays inside the text, every token is nonempty.
// ---------------------------------------------------------------------------

pub proof fn lemma_ws_len_bounds(text: Seq<u8>, pos: int)
    requires
        0 <= pos <= text.len(),
    ensures
        0 <= ws_len(text, pos),
        pos + ws_len(text, pos) <= text.len(),
    decreases text.len() - pos,
{
    if pos < text.len() && is_ws_byte(text[pos]) {
        lemma_ws_len_bounds(text, pos + 1);
    }
}

pub proof fn lemma_digits_len_bounds(text: Seq<u8>, pos: int)
    requires
        0 <= pos <= text.len(),
    ensures
        0 <= digits_len(text, pos),
        pos + digits_len(text, pos) <= text.len(),
    decreases text.len() - pos,
{
    if pos < text.len() && is_digit_byte(text[pos]) {
        lemma_digits_len_bounds(text, pos + 1);
    }
}

pub proof fn lemma_line_len_bounds(text: Seq<u8>, pos: int)
    requires
        0 <= pos <= text.len(),
    ensures
        0 <= line_len(text, pos),
        pos + line_len(text, pos) <= text.len(),
    decreases text.len() - pos,
{
    if pos < text.len() && text[pos] != 10 {
        lemma_line_len_bounds(text, pos + 1);
    }
}

pub proof fn lemma_ident_cont_len_bounds(text: Seq<u8>, pos: int)
    requires
        0 <= pos <= text.len(),
    ensures
        0 <= ident_cont_len(text, pos),
        pos + ident_cont_len(text, pos) <= text.len(),
    decreases text.len() - pos,
{
    if pos < text.len() {
        let b = text[pos];
        if is_ident_cont_ascii(b) {
            lemma_ident_cont_len_bounds(text, pos + 1);
        } else if b >= 128 {
            let d0 = utf8_at(text, pos);
            let d = if d0.len <= text.len() - pos {
                d0.len
            } else {
                text.len() - pos
            };
            if d0.valid && xid_continue_of(d0.code) {
                lemma_ident_cont_len_bounds(text, pos + d);
            }
        }
    }
}

pub proof fn lemma_scan_str_bounds(text: Seq<u8>, pos: int)
    requires
        0 <= pos <= text.len(),
    ensures
        pos <= scan_str(text, pos).end <= text.len(),
    decreases text.len() - pos,
{
    if pos < text.len() {
        if text[pos] == 34 {
        } else if text[pos] == 92 {
            if pos + 1 < text.len() {
                lemma_scan_str_bounds(text, pos + 2);
            }
        } else {
            lemma_scan_str_bounds(text, pos + 1);
        }
    }
}

/// Every token is at least one byte long and stays inside the text.
pub proof fn lemma_token_at_bounds(text: Seq<u8>, pos: int)
    requires
        0 <= pos < text.len(),
    ensures
        1 <= token_at(text, pos).len,
        pos + token_at(text, pos).len <= text.len(),
{
    let b = text[pos];
    if is_ws_byte(b) {
        lemma_ws_len_bounds(text, pos + 1);
    } else if b == 47 && pos + 1 < text.len() && text[pos + 1] == 47 {
        lemma_line_len_bounds(text, pos + 2);
    } else if is_ident_start_ascii(b) {
        lemma_ident_cont_len_bounds(text, pos + 1);
    } else if is_digit_byte(b) {
        lemma_digits_len_bounds(text, pos + 1);
    } else if b == 34 {
        lemma_scan_str_bounds(text, pos + 1);
    } else if b >= 128 {
        let d0 = utf8_at(text, pos);
        if d0.valid {
            let d = if d0.len <= text.len() - pos {
                d0.len
            } else {
                text.len() - pos
            };
            lemma_ident_cont_len_bounds(text, pos + d);
        }
    }
}

// ---------------------------------------------------------------------------
// Executable scanner.
// ---------------------------------------------------------------------------

fn ws_end(text: &[u8], pos: usize) -> (end: usize)
    requires
        pos <= text@.len(),
    ensures
        end - pos == ws_len(text@, pos as int),
        pos <= end <= text@.len(),
{
    let mut i: usize = pos;
    while i < text.len() && (text[i] == 32 || text[i] == 9 || text[i] == 10 || text[i] == 13)
        invariant
            pos <= i <= text@.len(),
            ws_len(text@, pos as int) == i - pos + ws_len(text@, i as int),
        decreases text@.len() - i,
    {
        i = i + 1;
    }
    i
}

fn digits_end(text: &[u8], pos: usize) -> (end: usize)
    requires
        pos <= text@.len(),
    ensures
        end - pos == digits_len(text@, pos as int),
        pos <= end <= text@.len(),
{
    let mut i: usize = pos;
    while i < text.len() && 48 <= text[i] && text[i] <= 57
        invariant
            pos <= i <= text@.len(),
            digits_len(text@, pos as int) == i - pos + digits_len(text@, i as int),
        decreases text@.len() - i,
    {
        i = i + 1;
    }
    i
}

fn line_end(text: &[u8], pos: usize) -> (end: usize)
    requires
        pos <= text@.len(),
    ensures
        end - pos == line_len(text@, pos as int),
        pos <= end <= text@.len(),
{
    let mut i: usize = pos;
    while i < text.len() && text[i] != 10
        invariant
            pos <= i <= text@.len(),
            line_len(text@, pos as int) == i - pos + line_len(text@, i as int),
        decreases text@.len() - i,
    {
        i = i + 1;
    }
    i
}

/// Decode the code point at `pos`: consumed length, validity, value.
fn utf8_decode(text: &[u8], pos: usize) -> (r: (usize, bool, u32))
    requires
        pos < text@.len(),
    ensures
        r.0 as int == utf8_at(text@, pos as int).len,
        r.1 == utf8_at(text@, pos as int).valid,
        r.1 ==> r.2 as int == utf8_at(text@, pos as int).code,
        1 <= r.0 && pos + r.0 <= text@.len(),
{
    let b0 = text[pos];
    if b0 < 128 {
        (1, true, b0 as u32)
    } else if 194 <= b0 && b0 < 224 {
        if pos + 1 < text.len() && 128 <= text[pos + 1] && text[pos + 1] < 192 {
            let c: u32 = (b0 as u32 - 192) * 64 + (text[pos + 1] as u32 - 128);
            (2, true, c)
        } else {
            (1, false, 0)
        }
    } else if 224 <= b0 && b0 < 240 {
        if text.len() - pos > 2 && 128 <= text[pos + 1] && text[pos + 1] < 192 && 128 <= text[pos
            + 2] && text[pos + 2] < 192 {
            let c: u32 = (b0 as u32 - 224) * 4096 + (text[pos + 1] as u32 - 128) * 64 + (text[pos
                + 2] as u32 - 128);
            (3, true, c)
        } else {
            (1, false, 0)
        }
    } else if 240 <= b0 && b0 < 245 {
        if text.len() - pos > 3 && 128 <= text[pos + 1] && text[pos + 1] < 192 && 128 <= text[pos
            + 2] && text[pos + 2] < 192 && 128 <= text[pos + 3] && text[pos + 3] < 192 {
            let c: u32 = (b0 as u32 - 240) * 262144 + (text[pos + 1] as u32 - 128) * 4096 + (
            text[pos + 2] as u32 - 128) * 64 + (text[pos + 3] as u32 - 128);
            (4, true, c)
        } else {
            (1, false, 0)
        }
    } else {
        (1, false, 0)
    }
}

fn ident_cont_end(text: &[u8], pos: usize) -> (end: usize)
    requires
        pos <= text@.len(),
    ensures
        end - pos == ident_cont_len(text@, pos as int),
        pos <= end <= text@.len(),
{
    let mut i: usize = pos;
    loop
        invariant
            pos <= i <= text@.len(),
            ident_cont_len(text@, pos as int) == i - pos + ident_cont_len(text@, i as int),
        decreases text@.len() - i,
    {
        if i >= text.len() {
            return i;
        }
        let b = text[i];
        if (97 <= b && b <= 122) || (65 <= b && b <= 90) || b == 95 || (48 <= b && b <= 57) {
            i = i + 1;
        } else if b >= 128 {
            let (d, valid, code) = utf8_decode(text, i);
            if valid && is_xid_continue(code) {
                i = i + d;
            } else {
                return i;
            }
        } else {
            return i;
        }
    }
}

/// Scan a string body from `pos` (just after the opening quote).
pub(crate) fn str_scan(text: &[u8], pos: usize) -> (r: (usize, bool))
    requires
        pos <= text@.len(),
    ensures
        r.0 as int == scan_str(text@, pos as int).end,
        r.1 == scan_str(text@, pos as int).terminated,
        pos <= r.0 <= text@.len(),
{
    let mut i: usize = pos;
    loop
        invariant
            pos <= i <= text@.len(),
            scan_str(text@, pos as int) == scan_str(text@, i as int),
        decreases text@.len() - i,
    {
        if i >= text.len() {
            return (i, false);
        }
        let b = text[i];
        if b == 34 {
            return (i + 1, true);
        } else if b == 92 {
            if i + 1 < text.len() {
                i = i + 2;
            } else {
                return (text.len(), false);
            }
        } else {
            i = i + 1;
        }
    }
}

/// Scan the single token starting at `pos`.
fn next_token(text: &[u8], pos: usize) -> (t: Token)
    requires
        pos < text@.len(),
    ensures
        t.kind == token_at(text@, pos as int).kind,
        t.len as int == token_at(text@, pos as int).len,
        1 <= t.len && pos + t.len <= text@.len(),
{
    proof {
        lemma_token_at_bounds(text@, pos as int);
    }
    let b = text[pos];
    if b == 32 || b == 9 || b == 10 || b == 13 {
        let end = ws_end(text, pos);
        Token { kind: SyntaxKind::Whitespace, len: end - pos }
    } else if b == 47 && pos + 1 < text.len() && text[pos + 1] == 47 {
        let end = line_end(text, pos + 2);
        Token { kind: SyntaxKind::Comment, len: end - pos }
    } else if (97 <= b && b <= 122) || (65 <= b && b <= 90) || b == 95 {
        let end = ident_cont_end(text, pos + 1);
        Token { kind: SyntaxKind::Ident, len: end - pos }
    } else if 48 <= b && b <= 57 {
        let end = digits_end(text, pos);
        Token { kind: SyntaxKind::IntNumber, len: end - pos }
    } else if b == 34 {
        let (end, _terminated) = str_scan(text, pos + 1);
        Token { kind: SyntaxKind::Str, len: end - pos }
    } else if b == 40 {
        Token { kind: SyntaxKind::LParen, len: 1 }
    } else if b == 41 {
        Token { kind: SyntaxKind::RParen, len: 1 }
    } else if b == 123 {
        Token { kind: SyntaxKind::LCurly, len: 1 }
    } else if b == 125 {
        Token { kind: SyntaxKind::RCurly, len: 1 }
    } else if b == 43 {
        Token { kind: SyntaxKind::Plus, len: 1 }
    } else if b == 45 {
        Token { kind: SyntaxKind::Minus, len: 1 }
    } else if b == 42 {
        Token { kind: SyntaxKind::Star, len: 1 }
    } else if b == 44 {
        Token { kind: SyntaxKind::Comma, len: 1 }
    } else if b == 59 {
        Token { kind: SyntaxKind::Semi, len: 1 }
    } else if b >= 128 {
        let (d, valid, code) = utf8_decode(text, pos);
        if valid && is_xid_start(code) {
            let end = ident_cont_end(text, pos + d);
            Token { kind: SyntaxKind::Ident, len: end - pos }
        } else {
            Token { kind: SyntaxKind::Error, len: d }
        }
    } else {
        Token { kind: SyntaxKind::Error, len: 1 }
    }
}

/// Tokenize the whole text.  Total: defined for every byte sequence.
pub fn tokenize(text: &[u8]) -> (r: Vec<Token>)
    ensures
        toks_model(r@) == spec_toks(text@),
{
    let mut toks: Vec<Token> = Vec::new();
    let mut pos: usize = 0;
    while pos < text.len()
        invariant
            pos <= text@.len(),
            spec_toks(text@) =~= toks_model(toks@) + spec_tokenize(text@, pos as int),
        decreases text@.len() - pos,
    {
        let t = next_token(text, pos);
        proof {
            lemma_token_at_bounds(text@, pos as int);
            let m = TokM { kind: t.kind, len: t.len as int };
            assert(spec_tokenize(text@, pos as int) == seq![m] + spec_tokenize(
                text@,
                pos + t.len as int,
            ));
            assert(toks_model(toks@.push(t)) =~= toks_model(toks@) + seq![m]);
        }
        toks.push(t);
        pos = pos + t.len;
    }
    proof {
        assert(spec_tokenize(text@, pos as int) =~= Seq::<TokM>::empty());
        assert(toks_model(toks@) + Seq::<TokM>::empty() =~= toks_model(toks@));
    }
    toks
}

/// Progress: the token stream of `text` covers it exactly, byte for byte,
/// with every token nonempty.
pub proof fn lemma_tokenize_covers(text: Seq<u8>, pos: int)
    requires
        0 <= pos <= text.len(),
    ensures
        toks_len(spec_tokenize(text, pos)) == text.len() - pos,
        forall|i: int|
            0 <= i < spec_tokenize(text, pos).len() ==> 1 <= #[trigger] spec_tokenize(
                text,
                pos,
            )[i].len,
    decreases text.len() - pos,
{
    if pos < text.len() {
        lemma_token_at_bounds(text, pos);
        let t = token_at(text, pos);
        let l = t.len;
        lemma_tokenize_covers(text, pos + l);
        let rest = spec_tokenize(text, pos + l);
        let whole = spec_tokenize(text, pos);
        let m = TokM { kind: t.kind, len: l };
        assert(whole == seq![m] + rest);
        lemma_toks_len_shift(m, rest, 0);
        assert(whole[0] == m);
    }
}

} // verus!
