//! Edits and their application.
//!
//! An edit deletes a byte range of the previous text and inserts new bytes
//! in its place.  The incremental engine in `tree` decides whether the old
//! event log can be reused; the helpers here apply the edit and compare
//! token streams.

use vstd::prelude::*;

use crate::lexer::TokM;
use crate::lexer::Token;
use crate::lexer::kinds_of;
use crate::lexer::toks_model;

verus! {

/// A half-open byte range `[start, end)`.
#[derive(Clone, Copy, Debug, PartialEq, Eq, Structural, Hash)]
pub struct TextRange {
    /// First byte of the range.
    pub start: usize,
    /// One past the last byte of the range.
    pub end: usize,
}

/// A single edit: replace the bytes of `delete` with `insert`.
#[derive(Clone, Debug)]
pub struct AtomEdit {
    /// The range of the previous text to remove.
    pub delete: TextRange,
    /// The bytes to put in its place.
    pub insert: Vec<u8>,
}

/// The edit's offsets lie inside `text`.  An edit that fails this is a
/// caller bookkeeping error, the one hard failure this crate surfaces.
pub open spec fn edit_valid(e: AtomEdit, text: Seq<u8>) -> bool {
    e.delete.start <= e.delete.end && e.delete.end <= text.len()
}

/// The text after the edit.
pub open spec fn splice(text: Seq<u8>, e: AtomEdit) -> Seq<u8> {
    text.take(e.delete.start as int) + e.insert@ + text.skip(e.delete.end as int)
}

/// Apply an edit to a text.
pub fn apply_edit(text: &[u8], edit: &AtomEdit) -> (r: Vec<u8>)
    requires
        edit_valid(*edit, text@),
    ensures
        r@ == splice(text@, *edit),
{
    let mut r: Vec<u8> = Vec::new();
    let mut i: usize = 0;
    while i < edit.delete.start
        invariant
            edit.delete.start <= text@.len(),
            i <= edit.delete.start,
            r@ == text@.take(edit.delete.start as int).take(i as int),
        decreases edit.delete.start - i,
    {
        r.push(text[i]);
        proof {
            let pre = text@.take(edit.delete.start as int);
            assert(pre.take(i + 1 as int) =~= pre.take(i as int).push(text@[i as int]));
        }
        i = i + 1;
    }
    proof {
        let pre = text@.take(edit.delete.start as int);
        assert(pre.take(pre.len() as int) =~= pre);
    }
    let mut j: usize = 0;
    while j < edit.insert.len()
        invariant
            j <= edit.insert@.len(),
            r@ == text@.take(edit.delete.start as int) + edit.insert@.take(j as int),
        decreases edit.insert@.len() - j,
    {
        r.push(edit.insert[j]);
        proof {
            let pre = text@.take(edit.delete.start as int);
            assert(pre + edit.insert@.take(j + 1 as int) =~= (pre + edit.insert@.take(
                j as int,
            )).push(edit.insert@[j as int]));
        }
        j = j + 1;
    }
    proof {
        assert(edit.insert@.take(edit.insert@.len() as int) =~= edit.insert@);
    }
    let mut k: usize = edit.delete.end;
    while k < text.len()
        invariant
            edit.delete.end <= k <= text@.len(),
            r@ == text@.take(edit.delete.start as int) + edit.insert@ + text@.skip(
                edit.delete.end as int,
            ).take(k - edit.delete.end),
        decreases text@.len() - k,
    {
        r.push(text[k]);
        proof {
            let pre = text@.take(edit.delete.start as int) + edit.insert@;
            let suf = text@.skip(edit.delete.end as int);
            assert(suf.take(k + 1 - edit.delete.end) =~= suf.take(k - edit.delete.end).push(
                text@[k as int],
            ));
            assert(pre + suf.take(k + 1 - edit.delete.end) =~= (pre + suf.take(
                k - edit.delete.end,
            )).push(text@[k as int]));
        }
        k = k + 1;
    }
    proof {
        let suf = text@.skip(edit.delete.end as int);
        assert(suf.take(suf.len() as int) =~= suf);
        assert(r@ =~= splice(text@, *edit));
    }
    r
}

/// Whether two token streams have the same kinds, position by position.
/// Lengths and texts may differ; the grammar cannot tell the streams apart.
pub(crate) fn kinds_equal(a: &Vec<Token>, b: &Vec<Token>) -> (r: bool)
    ensures
        r == (kinds_of(toks_model(a@)) == kinds_of(toks_model(b@))),
{
    let ghost ka = kinds_of(toks_model(a@));
    let ghost kb = kinds_of(toks_model(b@));
    proof {
        assert(ka.len() == a@.len());
        assert(kb.len() == b@.len());
        assert forall|j: int| 0 <= j < a@.len() implies #[trigger] ka[j] == a@[j].kind by {
            assert(toks_model(a@)[j] == TokM { kind: a@[j].kind, len: a@[j].len as int });
        }
        assert forall|j: int| 0 <= j < b@.len() implies #[trigger] kb[j] == b@[j].kind by {
            assert(toks_model(b@)[j] == TokM { kind: b@[j].kind, len: b@[j].len as int });
        }
    }
    if a.len() != b.len() {
        proof {
            assert(ka.len() != kb.len());
        }
        return false;
    }
    let mut i: usize = 0;
    while i < a.len()
        invariant
            i <= a@.len(),
            a@.len() == b@.len(),
            ka.len() == a@.len(),
            kb.len() == b@.len(),
            ka == kinds_of(toks_model(a@)),
            kb == kinds_of(toks_model(b@)),
            forall|j: int| 0 <= j < a@.len() ==> #[trigger] ka[j] == a@[j].kind,
            forall|j: int| 0 <= j < b@.len() ==> #[trigger] kb[j] == b@[j].kind,
            forall|j: int| 0 <= j < i ==> #[trigger] ka[j] == kb[j],
        decreases a@.len() - i,
    {
        if a[i].kind != b[i].kind {
            proof {
                assert(ka[i as int] != kb[i as int]);
            }
            return false;
        }
        i = i + 1;
    }
    proof {
        assert(ka =~= kb);
    }
    true
}

} // verus!
