//! Declared types, storage classes, and table modes.

use vstd::prelude::*;

verus! {

/// SQLite column affinity.
#[derive(Clone, Copy, Debug, PartialEq, Eq, Structural)]
pub enum Affinity {
    Integer,
    Real,
    Text,
    Blob,
    Numeric,
}

impl Affinity {
    /// The byte that stands for an affinity in a frame.
    pub open spec fn code(self) -> u8 {
        match self {
            Affinity::Integer => 1,
            Affinity::Real => 2,
            Affinity::Text => 3,
            Affinity::Blob => 4,
            Affinity::Numeric => 5,
        }
    }

    /// The affinity that a byte stands for.
    pub open spec fn of_code(code: u8) -> Option<Affinity> {
        if code == 1 {
            Some(Affinity::Integer)
        } else if code == 2 {
            Some(Affinity::Real)
        } else if code == 3 {
            Some(Affinity::Text)
        } else if code == 4 {
            Some(Affinity::Blob)
        } else if code == 5 {
            Some(Affinity::Numeric)
        } else {
            None
        }
    }

    /// The byte that stands for an affinity in a frame.
    pub fn to_u8(self) -> (r: u8)
        ensures
            r == self.code(),
    {
        match self {
            Affinity::Integer => 1,
            Affinity::Real => 2,
            Affinity::Text => 3,
            Affinity::Blob => 4,
            Affinity::Numeric => 5,
        }
    }

    /// The affinity that a byte stands for.
    pub fn from_u8(code: u8) -> (r: Option<Affinity>)
        ensures
            r == Affinity::of_code(code),
    {
        if code == 1 {
            Some(Affinity::Integer)
        } else if code == 2 {
            Some(Affinity::Real)
        } else if code == 3 {
            Some(Affinity::Text)
        } else if code == 4 {
            Some(Affinity::Blob)
        } else if code == 5 {
            Some(Affinity::Numeric)
        } else {
            None
        }
    }
}

/// Whether a table keeps its rows by rowid or by primary key.
#[derive(Clone, Copy, Debug, PartialEq, Eq, Structural)]
pub enum TableStorage {
    Rowid,
    WithoutRowid,
}

impl TableStorage {
    /// The byte that stands for a storage in a frame.
    pub open spec fn code(self) -> u8 {
        match self {
            TableStorage::Rowid => 1,
            TableStorage::WithoutRowid => 2,
        }
    }

    /// The storage that a byte stands for.
    pub open spec fn of_code(code: u8) -> Option<TableStorage> {
        if code == 1 {
            Some(TableStorage::Rowid)
        } else if code == 2 {
            Some(TableStorage::WithoutRowid)
        } else {
            None
        }
    }

    /// The byte that stands for a storage in a frame.
    pub fn to_u8(self) -> (r: u8)
        ensures
            r == self.code(),
    {
        match self {
            TableStorage::Rowid => 1,
            TableStorage::WithoutRowid => 2,
        }
    }

    /// The storage that a byte stands for.
    pub fn from_u8(code: u8) -> (r: Option<TableStorage>)
        ensures
            r == TableStorage::of_code(code),
    {
        if code == 1 {
            Some(TableStorage::Rowid)
        } else if code == 2 {
            Some(TableStorage::WithoutRowid)
        } else {
            None
        }
    }
}

/// Whether SQLite enforces the declared types of a table.
#[derive(Clone, Copy, Debug, PartialEq, Eq, Structural)]
pub enum TableMode {
    Ordinary,
    Strict,
}

impl TableMode {
    /// The byte that stands for a table mode in a frame.
    pub open spec fn code(self) -> u8 {
        match self {
            TableMode::Ordinary => 1,
            TableMode::Strict => 2,
        }
    }

    /// What a byte stands for.
    pub open spec fn of_code(code: u8) -> Option<TableMode> {
        if code == 1 {
            Some(TableMode::Ordinary)
        } else if code == 2 {
            Some(TableMode::Strict)
        } else {
            None
        }
    }

    /// The byte that stands for a table mode in a frame.
    pub fn to_u8(self) -> (r: u8)
        ensures
            r == self.code(),
    {
        match self {
            TableMode::Ordinary => 1,
            TableMode::Strict => 2,
        }
    }

    /// What a byte stands for.
    pub fn from_u8(code: u8) -> (r: Option<TableMode>)
        ensures
            r == TableMode::of_code(code),
    {
        if code == 1 {
            Some(TableMode::Ordinary)
        } else if code == 2 {
            Some(TableMode::Strict)
        } else {
            None
        }
    }
}

impl Default for TableMode {
    fn default() -> (r: Self)
        ensures
            r == TableMode::Ordinary,
    {
        TableMode::Ordinary
    }
}

/// The types that a STRICT table can declare.
#[derive(Clone, Copy, Debug, PartialEq, Eq, Structural)]
pub enum StrictType {
    Integer,
    Real,
    Text,
    Blob,
    Any,
}

impl StrictType {
    /// The byte that stands for a strict type in a frame.
    pub open spec fn code(self) -> u8 {
        match self {
            StrictType::Integer => 1,
            StrictType::Real => 2,
            StrictType::Text => 3,
            StrictType::Blob => 4,
            StrictType::Any => 5,
        }
    }

    /// What a byte stands for.
    pub open spec fn of_code(code: u8) -> Option<StrictType> {
        if code == 1 {
            Some(StrictType::Integer)
        } else if code == 2 {
            Some(StrictType::Real)
        } else if code == 3 {
            Some(StrictType::Text)
        } else if code == 4 {
            Some(StrictType::Blob)
        } else if code == 5 {
            Some(StrictType::Any)
        } else {
            None
        }
    }

    /// The byte that stands for a strict type in a frame.
    pub fn to_u8(self) -> (r: u8)
        ensures
            r == self.code(),
    {
        match self {
            StrictType::Integer => 1,
            StrictType::Real => 2,
            StrictType::Text => 3,
            StrictType::Blob => 4,
            StrictType::Any => 5,
        }
    }

    /// What a byte stands for.
    pub fn from_u8(code: u8) -> (r: Option<StrictType>)
        ensures
            r == StrictType::of_code(code),
    {
        if code == 1 {
            Some(StrictType::Integer)
        } else if code == 2 {
            Some(StrictType::Real)
        } else if code == 3 {
            Some(StrictType::Text)
        } else if code == 4 {
            Some(StrictType::Blob)
        } else if code == 5 {
            Some(StrictType::Any)
        } else {
            None
        }
    }
}

/// What happens to a child row when its parent is deleted.
#[derive(Clone, Copy, Debug, PartialEq, Eq, Structural)]
pub enum ForeignKeyAction {
    NoAction,
    Restrict,
    SetNull,
    SetDefault,
    Cascade,
}

/// The direction of an index term.
#[derive(Clone, Copy, Debug, PartialEq, Eq, Structural)]
pub enum SortOrder {
    Ascending,
    Descending,
}

/// A column's declared type, as far as it decides how values are stored.
#[derive(Clone, Copy, Debug, PartialEq, Eq, Structural)]
pub struct TypeDeclaration {
    /// The affinity outside STRICT tables.
    pub affinity: Affinity,
    /// The type that a STRICT table enforces, where the name is one of them.
    pub strict: Option<StrictType>,
    /// Whether the type is spelled INTEGER, so that a primary key can be the rowid.
    pub integer: bool,
}

impl TypeDeclaration {
    /// The type INTEGER.
    pub fn integer() -> (r: Self)
        ensures
            r == (TypeDeclaration {
                affinity: Affinity::Integer,
                strict: Some(StrictType::Integer),
                integer: true,
            }),
    {
        TypeDeclaration {
            affinity: Affinity::Integer,
            strict: Some(StrictType::Integer),
            integer: true,
        }
    }

    /// The type INT, which has integer affinity and names no rowid.
    pub fn short_integer() -> (r: Self)
        ensures
            r == (TypeDeclaration {
                affinity: Affinity::Integer,
                strict: Some(StrictType::Integer),
                integer: false,
            }),
    {
        TypeDeclaration {
            affinity: Affinity::Integer,
            strict: Some(StrictType::Integer),
            integer: false,
        }
    }

    /// The type REAL.
    pub fn floating() -> (r: Self)
        ensures
            r == (TypeDeclaration {
                affinity: Affinity::Real,
                strict: Some(StrictType::Real),
                integer: false,
            }),
    {
        TypeDeclaration {
            affinity: Affinity::Real,
            strict: Some(StrictType::Real),
            integer: false,
        }
    }

    /// The type TEXT.
    pub fn text() -> (r: Self)
        ensures
            r == (TypeDeclaration {
                affinity: Affinity::Text,
                strict: Some(StrictType::Text),
                integer: false,
            }),
    {
        TypeDeclaration {
            affinity: Affinity::Text,
            strict: Some(StrictType::Text),
            integer: false,
        }
    }

    /// The type BLOB.
    pub fn blob() -> (r: Self)
        ensures
            r == (TypeDeclaration {
                affinity: Affinity::Blob,
                strict: Some(StrictType::Blob),
                integer: false,
            }),
    {
        TypeDeclaration {
            affinity: Affinity::Blob,
            strict: Some(StrictType::Blob),
            integer: false,
        }
    }

    /// The type NUMERIC.
    pub fn numeric() -> (r: Self)
        ensures
            r == (TypeDeclaration {
                affinity: Affinity::Numeric,
                strict: None,
                integer: false,
            }),
    {
        TypeDeclaration { affinity: Affinity::Numeric, strict: None, integer: false }
    }

    /// The type ANY, which stores any value as it is in a STRICT table.
    pub fn any() -> (r: Self)
        ensures
            r == (TypeDeclaration {
                affinity: Affinity::Numeric,
                strict: Some(StrictType::Any),
                integer: false,
            }),
    {
        TypeDeclaration {
            affinity: Affinity::Numeric,
            strict: Some(StrictType::Any),
            integer: false,
        }
    }
}

} // verus!
