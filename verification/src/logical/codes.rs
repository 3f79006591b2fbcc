//! Stable labels of the durable key layout.

use crate::bytes::{copy_bytes, same_bytes};
use vstd::prelude::*;
use vstd::string::*;
use vstd::utf8::*;

verus! {

pub const ROOT: &'static str = "multilite";

pub const SCHEMA: &'static str = "schema";

pub const LOG: &'static str = "log";

pub const NAMES: &'static str = "names";

pub const TABLES: &'static str = "tables";

pub const COLUMNS: &'static str = "columns";

pub const CONSTRAINTS: &'static str = "constraints";

pub const ACTIVE_CONSTRAINTS: &'static str = "active-constraints";

pub const CONSTRAINT_REFERENCES: &'static str = "constraint-references";

pub const COLUMN_DEPENDENCIES: &'static str = "column-dependencies";

pub const VIEW_DEPENDENCIES: &'static str = "view-dependencies";

pub const MAIN: &'static str = "main";

pub const INDEXES: &'static str = "indexes";

pub const ACTIVE_SCHEMA_REVISION: &'static str = "active-schema-revision";

pub const ACTIVE_PRIMARY_INDEX: &'static str = "active-primary-index";

pub const INDEX_DEFINITIONS: &'static str = "index-definitions";

pub const ROWS: &'static str = "rows";

pub const UNIQUE: &'static str = "unique";

pub const FOREIGN_REFERENCES: &'static str = "foreign-references";

pub const WRITE_REVISION: &'static str = "write-revision";

pub const TRANSACTIONS: &'static str = "transactions";

pub const METADATA: &'static str = "metadata";

pub const USER_VERSION: &'static str = "user-version";

/// Components before the value images in row and UNIQUE keys.
pub const VALUE_KEY_PREFIX_COMPONENTS: usize = 5;

/// Components outside the parent and child value images in a foreign-reference key.
pub const FOREIGN_REFERENCE_KEY_FIXED_COMPONENTS: usize = 7;

/// The bytes of a label.
#[verifier::opaque]
pub open spec fn label(text: &str) -> Seq<u8> {
    text.spec_bytes()
}

/// The bytes of a label.
pub fn label_bytes(text: &str) -> (r: Vec<u8>)
    ensures
        r@ == label(text),
{
    proof {
        reveal(label);
    }
    copy_bytes(text.as_bytes())
}

/// Whether bytes are those of a label.
pub fn is_label(bytes: &[u8], text: &str) -> (r: bool)
    ensures
        r == (bytes@ == label(text)),
{
    proof {
        reveal(label);
    }
    same_bytes(bytes, text.as_bytes())
}

/// An ASCII label has one byte for each character.
pub proof fn lemma_ascii_label(text: &str)
    requires
        is_ascii_chars(text@),
    ensures
        label(text).len() == text@.len(),
        text@.len() > 0 ==> label(text)[0] == text@[0] as u8,
{
    reveal(label);
    is_ascii_chars_encode_utf8(text@);
}

/// The length and the first byte of each label.
pub proof fn lemma_labels()
    ensures
        label(ROOT).len() == 9 && label(ROOT)[0] == 109,
        label(SCHEMA).len() == 6 && label(SCHEMA)[0] == 115,
        label(LOG).len() == 3 && label(LOG)[0] == 108,
        label(NAMES).len() == 5 && label(NAMES)[0] == 110,
        label(TABLES).len() == 6 && label(TABLES)[0] == 116,
        label(COLUMNS).len() == 7 && label(COLUMNS)[0] == 99,
        label(CONSTRAINTS).len() == 11 && label(CONSTRAINTS)[0] == 99,
        label(ACTIVE_CONSTRAINTS).len() == 18 && label(ACTIVE_CONSTRAINTS)[0] == 97,
        label(CONSTRAINT_REFERENCES).len() == 21 && label(CONSTRAINT_REFERENCES)[0] == 99,
        label(COLUMN_DEPENDENCIES).len() == 19 && label(COLUMN_DEPENDENCIES)[0] == 99,
        label(VIEW_DEPENDENCIES).len() == 17 && label(VIEW_DEPENDENCIES)[0] == 118,
        label(MAIN).len() == 4 && label(MAIN)[0] == 109,
        label(INDEXES).len() == 7 && label(INDEXES)[0] == 105,
        label(ACTIVE_SCHEMA_REVISION).len() == 22 && label(ACTIVE_SCHEMA_REVISION)[0] == 97,
        label(ACTIVE_PRIMARY_INDEX).len() == 20 && label(ACTIVE_PRIMARY_INDEX)[0] == 97,
        label(INDEX_DEFINITIONS).len() == 17 && label(INDEX_DEFINITIONS)[0] == 105,
        label(ROWS).len() == 4 && label(ROWS)[0] == 114,
        label(UNIQUE).len() == 6 && label(UNIQUE)[0] == 117,
        label(FOREIGN_REFERENCES).len() == 18 && label(FOREIGN_REFERENCES)[0] == 102,
        label(WRITE_REVISION).len() == 14 && label(WRITE_REVISION)[0] == 119,
        label(TRANSACTIONS).len() == 12 && label(TRANSACTIONS)[0] == 116,
        label(METADATA).len() == 8 && label(METADATA)[0] == 109,
        label(USER_VERSION).len() == 12 && label(USER_VERSION)[0] == 117,
{
    reveal_strlit("multilite");
    lemma_ascii_label(ROOT);
    reveal_strlit("schema");
    lemma_ascii_label(SCHEMA);
    reveal_strlit("log");
    lemma_ascii_label(LOG);
    reveal_strlit("names");
    lemma_ascii_label(NAMES);
    reveal_strlit("tables");
    lemma_ascii_label(TABLES);
    reveal_strlit("columns");
    lemma_ascii_label(COLUMNS);
    reveal_strlit("constraints");
    lemma_ascii_label(CONSTRAINTS);
    reveal_strlit("active-constraints");
    lemma_ascii_label(ACTIVE_CONSTRAINTS);
    reveal_strlit("constraint-references");
    lemma_ascii_label(CONSTRAINT_REFERENCES);
    reveal_strlit("column-dependencies");
    lemma_ascii_label(COLUMN_DEPENDENCIES);
    reveal_strlit("view-dependencies");
    lemma_ascii_label(VIEW_DEPENDENCIES);
    reveal_strlit("main");
    lemma_ascii_label(MAIN);
    reveal_strlit("indexes");
    lemma_ascii_label(INDEXES);
    reveal_strlit("active-schema-revision");
    lemma_ascii_label(ACTIVE_SCHEMA_REVISION);
    reveal_strlit("active-primary-index");
    lemma_ascii_label(ACTIVE_PRIMARY_INDEX);
    reveal_strlit("index-definitions");
    lemma_ascii_label(INDEX_DEFINITIONS);
    reveal_strlit("rows");
    lemma_ascii_label(ROWS);
    reveal_strlit("unique");
    lemma_ascii_label(UNIQUE);
    reveal_strlit("foreign-references");
    lemma_ascii_label(FOREIGN_REFERENCES);
    reveal_strlit("write-revision");
    lemma_ascii_label(WRITE_REVISION);
    reveal_strlit("transactions");
    lemma_ascii_label(TRANSACTIONS);
    reveal_strlit("metadata");
    lemma_ascii_label(METADATA);
    reveal_strlit("user-version");
    lemma_ascii_label(USER_VERSION);
}

} // verus!
