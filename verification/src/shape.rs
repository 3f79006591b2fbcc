//! What SQLite says of the tables that the library keeps for itself.

use crate::name::{canonical_bytes, fold_bytes, same_text};
use vstd::prelude::*;

verus! {

/// One column as SQLite describes it: its name, its declared type, whether it is
/// NOT NULL, and its place in the primary key from one on.
#[derive(Debug, PartialEq, Eq)]
pub struct ColumnInfo {
    pub name: String,
    pub kind: String,
    pub not_null: bool,
    pub primary: u32,
}

/// A described column as a mathematical value.
#[verifier::ext_equal]
pub struct ColumnInfoView {
    pub name: Seq<char>,
    pub kind: Seq<char>,
    pub not_null: bool,
    pub primary: u32,
}

impl View for ColumnInfo {
    type V = ColumnInfoView;

    open spec fn view(&self) -> ColumnInfoView {
        ColumnInfoView {
            name: self.name@,
            kind: self.kind@,
            not_null: self.not_null,
            primary: self.primary,
        }
    }
}

/// A described column.
pub open spec fn described(name: Seq<char>, kind: Seq<char>, primary: u32) -> ColumnInfoView {
    ColumnInfoView { name, kind, not_null: true, primary }
}

/// Whether bytes stand somewhere in others.
pub open spec fn holds_bytes(text: Seq<u8>, word: Seq<u8>) -> bool {
    exists|i: int|
        0 <= i <= text.len() - word.len() && #[trigger] text.subrange(i, i + word.len()) == word
}

/// Whether a table's definition says that it has no rowids, in any case of its
/// letters.
pub open spec fn without_rowid(sql: Seq<char>) -> bool {
    holds_bytes(canonical_bytes(sql), canonical_bytes("WITHOUT ROWID"@))
}

/// Whether a column is the described one.
pub fn column_is(column: &ColumnInfo, name: &str, kind: &str, primary: u32) -> (r: bool)
    ensures
        r == (column@ == described(name@, kind@, primary)),
{
    same_text(column.name.as_str(), name) && same_text(column.kind.as_str(), kind)
        && column.not_null && column.primary == primary
}

/// Whether bytes stand somewhere in others.
fn contains_bytes(text: &[u8], word: &[u8]) -> (r: bool)
    ensures
        r == holds_bytes(text@, word@),
{
    if text.len() < word.len() {
        return false;
    }
    let last: usize = text.len() - word.len();
    let mut i: usize = 0;
    while i <= last
        invariant
            i <= last + 1,
            last == text@.len() - word@.len(),
            text@.len() <= usize::MAX,
            forall|j: int| 0 <= j < i ==> #[trigger] text@.subrange(j, j + word@.len()) != word@,
        decreases last + 1 - i,
    {
        let mut k: usize = 0;
        while k < word.len() && text[i + k] == word[k]
            invariant
                k <= word@.len(),
                i <= last,
                text@.len() <= usize::MAX,
                last == text@.len() - word@.len(),
                forall|j: int| 0 <= j < k ==> text@[i + j] == #[trigger] word@[j],
            decreases word.len() - k,
        {
            k += 1;
        }
        let ghost here = text@.subrange(i as int, i + word@.len());
        if k == word.len() {
            assert(here =~= word@);
            return true;
        }
        assert(here[k as int] != word@[k as int]);
        if i == last {
            return false;
        }
        i += 1;
    }
    false
}

/// Whether a table's definition says that it has no rowids.
pub fn is_without_rowid(sql: &str) -> (r: bool)
    ensures
        r == without_rowid(sql@),
{
    let text = fold_bytes(sql.as_bytes());
    let word = fold_bytes("WITHOUT ROWID".as_bytes());
    contains_bytes(text.as_slice(), word.as_slice())
}

} // verus!
