//! SQLite values as they are stored and framed.

use crate::bytes::{
    append_bytes, append_u64, be64, bits64, copy_bytes, from_be64, from_bits64,
    lemma_be64_roundtrip, read_u64, same_bytes, to_bits64,
};
use vstd::prelude::*;

verus! {

/// Marks a NULL value.
pub const KIND_NULL: u8 = 0;

/// Marks an integer.
pub const KIND_INTEGER: u8 = 1;

/// Marks a floating-point number.
pub const KIND_REAL: u8 = 2;

/// Marks text.
pub const KIND_TEXT: u8 = 3;

/// Marks a blob.
pub const KIND_BLOB: u8 = 4;

/// One SQLite value. A floating-point number is held by its bit pattern, and
/// text by its bytes, which need not be valid UTF-8.
#[derive(Debug, PartialEq, Eq)]
pub enum StoredValue {
    Null,
    Integer(i64),
    Real(u64),
    Text(Vec<u8>),
    Blob(Vec<u8>),
}

/// A value as a mathematical value.
pub enum ValueView {
    Null,
    Integer(i64),
    Real(u64),
    Text(Seq<u8>),
    Blob(Seq<u8>),
}

/// Why bytes are no value.
#[derive(Clone, Copy, Debug, PartialEq, Eq, Structural)]
pub enum StoredValueCodecError {
    /// There are none.
    Truncated,
    /// The payload has the wrong length for its kind.
    InvalidLength,
    /// The kind is unknown.
    InvalidKind(u8),
}

/// The frame of a value: its kind and its payload.
pub open spec fn value_frame(value: ValueView) -> Seq<u8> {
    match value {
        ValueView::Null => seq![KIND_NULL],
        ValueView::Integer(v) => seq![KIND_INTEGER] + be64(bits64(v)),
        ValueView::Real(bits) => seq![KIND_REAL] + be64(bits as nat),
        ValueView::Text(bytes) => seq![KIND_TEXT] + bytes,
        ValueView::Blob(bytes) => seq![KIND_BLOB] + bytes,
    }
}

/// What decoding a value's frame gives.
pub open spec fn value_decoded(b: Seq<u8>) -> Result<ValueView, StoredValueCodecError> {
    if b.len() == 0 {
        Err(StoredValueCodecError::Truncated)
    } else {
        let payload = b.subrange(1, b.len() as int);
        if b[0] == KIND_NULL {
            if payload.len() == 0 {
                Ok(ValueView::Null)
            } else {
                Err(StoredValueCodecError::InvalidLength)
            }
        } else if b[0] == KIND_INTEGER {
            if payload.len() == 8 {
                Ok(ValueView::Integer(signed64(from_be64(payload))))
            } else {
                Err(StoredValueCodecError::InvalidLength)
            }
        } else if b[0] == KIND_REAL {
            if payload.len() == 8 {
                Ok(ValueView::Real(from_be64(payload) as u64))
            } else {
                Err(StoredValueCodecError::InvalidLength)
            }
        } else if b[0] == KIND_TEXT {
            Ok(ValueView::Text(payload))
        } else if b[0] == KIND_BLOB {
            Ok(ValueView::Blob(payload))
        } else {
            Err(StoredValueCodecError::InvalidKind(b[0]))
        }
    }
}

/// The signed integer with the given bit pattern.
pub open spec fn signed64(bits: nat) -> i64 {
    if bits < 9223372036854775808 {
        bits as i64
    } else {
        (bits - 18446744073709551616) as i64
    }
}

/// Decoding the frame of a value gives it back.
pub proof fn value_roundtrip(value: ValueView)
    ensures
        value_decoded(value_frame(value)) == Ok::<ValueView, StoredValueCodecError>(value),
{
    let b = value_frame(value);
    let payload = b.subrange(1, b.len() as int);
    match value {
        ValueView::Null => {},
        ValueView::Integer(v) => {
            lemma_be64_roundtrip(bits64(v));
            assert(payload =~= be64(bits64(v)));
        },
        ValueView::Real(bits) => {
            lemma_be64_roundtrip(bits as nat);
            assert(payload =~= be64(bits as nat));
        },
        ValueView::Text(bytes) => {
            assert(payload =~= bytes);
        },
        ValueView::Blob(bytes) => {
            assert(payload =~= bytes);
        },
    }
}

/// A decoded value takes no more bytes than it was read from.
pub proof fn value_shrinks(b: Seq<u8>)
    ensures
        value_decoded(b) matches Ok(value) ==> value_frame(value).len() <= b.len(),
{
}

impl View for StoredValue {
    type V = ValueView;

    open spec fn view(&self) -> ValueView {
        match self {
            StoredValue::Null => ValueView::Null,
            StoredValue::Integer(v) => ValueView::Integer(*v),
            StoredValue::Real(bits) => ValueView::Real(*bits),
            StoredValue::Text(bytes) => ValueView::Text(bytes@),
            StoredValue::Blob(bytes) => ValueView::Blob(bytes@),
        }
    }
}

impl Clone for StoredValue {
    fn clone(&self) -> (r: Self)
        ensures
            r@ == self@,
    {
        match self {
            StoredValue::Null => StoredValue::Null,
            StoredValue::Integer(v) => StoredValue::Integer(*v),
            StoredValue::Real(bits) => StoredValue::Real(*bits),
            StoredValue::Text(bytes) => StoredValue::Text(copy_bytes(bytes.as_slice())),
            StoredValue::Blob(bytes) => StoredValue::Blob(copy_bytes(bytes.as_slice())),
        }
    }
}

impl StoredValue {
    /// Whether two values are the same value of the same class.
    pub fn same(&self, other: &StoredValue) -> (r: bool)
        ensures
            r == (self@ == other@),
    {
        match (self, other) {
            (StoredValue::Null, StoredValue::Null) => true,
            (StoredValue::Integer(a), StoredValue::Integer(b)) => *a == *b,
            (StoredValue::Real(a), StoredValue::Real(b)) => *a == *b,
            (StoredValue::Text(a), StoredValue::Text(b)) => same_bytes(a.as_slice(), b.as_slice()),
            (StoredValue::Blob(a), StoredValue::Blob(b)) => same_bytes(a.as_slice(), b.as_slice()),
            _ => false,
        }
    }

    /// Encode the value's frame.
    pub fn encode(&self) -> (r: Vec<u8>)
        ensures
            r@ == value_frame(self@),
    {
        let mut out: Vec<u8> = Vec::new();
        match self {
            StoredValue::Null => {
                out.push(KIND_NULL);
            },
            StoredValue::Integer(v) => {
                out.push(KIND_INTEGER);
                append_u64(&mut out, to_bits64(*v));
            },
            StoredValue::Real(bits) => {
                out.push(KIND_REAL);
                append_u64(&mut out, *bits);
            },
            StoredValue::Text(bytes) => {
                out.push(KIND_TEXT);
                append_bytes(&mut out, bytes.as_slice());
            },
            StoredValue::Blob(bytes) => {
                out.push(KIND_BLOB);
                append_bytes(&mut out, bytes.as_slice());
            },
        }
        assert(out@ =~= value_frame(self@));
        out
    }

    /// The length of the value's frame, where it fits a `usize`.
    pub fn encoded_len(&self) -> (r: Option<usize>)
        ensures
            match r {
                Some(n) => n == value_frame(self@).len(),
                None => value_frame(self@).len() > usize::MAX,
            },
    {
        match self {
            StoredValue::Null => Some(1),
            StoredValue::Integer(_) => Some(9),
            StoredValue::Real(_) => Some(9),
            StoredValue::Text(bytes) => bytes.len().checked_add(1),
            StoredValue::Blob(bytes) => bytes.len().checked_add(1),
        }
    }

    /// Decode one value.
    pub fn decode(frame: &[u8]) -> (r: Result<StoredValue, StoredValueCodecError>)
        ensures
            match r {
                Ok(value) => value_decoded(frame@) == Ok::<ValueView, StoredValueCodecError>(
                    value@,
                ),
                Err(error) => value_decoded(frame@) == Err::<ValueView, StoredValueCodecError>(
                    error,
                ),
            },
    {
        if frame.len() == 0 {
            return Err(StoredValueCodecError::Truncated);
        }
        let kind: u8 = frame[0];
        let payload = vstd::slice::slice_subrange(frame, 1, frame.len());
        if kind == KIND_NULL {
            if payload.len() == 0 {
                Ok(StoredValue::Null)
            } else {
                Err(StoredValueCodecError::InvalidLength)
            }
        } else if kind == KIND_INTEGER {
            if payload.len() == 8 {
                Ok(StoredValue::Integer(from_bits64(read_u64(payload))))
            } else {
                Err(StoredValueCodecError::InvalidLength)
            }
        } else if kind == KIND_REAL {
            if payload.len() == 8 {
                Ok(StoredValue::Real(read_u64(payload)))
            } else {
                Err(StoredValueCodecError::InvalidLength)
            }
        } else if kind == KIND_TEXT {
            Ok(StoredValue::Text(copy_bytes(payload)))
        } else if kind == KIND_BLOB {
            Ok(StoredValue::Blob(copy_bytes(payload)))
        } else {
            Err(StoredValueCodecError::InvalidKind(kind))
        }
    }
}

} // verus!
