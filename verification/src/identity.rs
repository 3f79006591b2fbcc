//! Sixteen-byte identities and the random UUIDs that mint them.

use crate::bytes::same_bytes;
use vstd::prelude::*;

verus! {

/// Whether bytes are a random (version 4) UUID of the RFC 4122 variant.
pub open spec fn random_uuid(b: Seq<u8>) -> bool {
    b.len() == 16 && b[6] / 16 == 4 && b[8] / 64 == 2
}

/// `uuid::Uuid::get_version` on the UUID with these bytes. The contract says
/// that the version is `Random` exactly when the high half of the seventh byte
/// is four.
#[verifier::external_body]
fn has_random_version(bytes: [u8; 16]) -> (r: bool)
    ensures
        r == (bytes@[6] / 16 == 4),
{
    match uuid::Uuid::from_bytes(bytes).get_version() {
        Some(uuid::Version::Random) => true,
        _ => false,
    }
}

/// `uuid::Uuid::get_variant` on the UUID with these bytes. The contract says
/// that the variant is `RFC4122` exactly when the two high bits of the ninth
/// byte are one and zero.
#[verifier::external_body]
fn has_rfc4122_variant(bytes: [u8; 16]) -> (r: bool)
    ensures
        r == (bytes@[8] / 64 == 2),
{
    match uuid::Uuid::from_bytes(bytes).get_variant() {
        uuid::Variant::RFC4122 => true,
        _ => false,
    }
}

/// `uuid::Uuid::new_v4`. The contract says that the bytes are a random UUID;
/// which one is left to the system's random source, without which the call does
/// not return.
#[verifier::external_body]
fn new_random_uuid() -> (r: [u8; 16])
    ensures
        random_uuid(r@),
{
    uuid::Uuid::new_v4().into_bytes()
}

/// The character of a hexadecimal digit.
pub open spec fn hex_digit(d: int) -> char {
    if d < 10 {
        (48 + d) as char
    } else {
        (87 + d) as char
    }
}

/// Bytes in hexadecimal: two lower-case digits for each.
pub open spec fn hex_text(b: Seq<u8>) -> Seq<char> {
    Seq::new(
        2 * b.len(),
        |i: int| hex_digit(if i % 2 == 0 { b[i / 2] as int / 16 } else { b[i / 2] as int % 16 }),
    )
}

/// `uuid::fmt::Simple`'s text of the UUID with these bytes. The contract says
/// that it is the bytes in lower-case hexadecimal, with nothing between them.
#[verifier::external_body]
pub(crate) fn simple_text(bytes: [u8; 16]) -> (r: String)
    ensures
        r@ == hex_text(bytes@),
{
    uuid::Uuid::from_bytes(bytes).simple().to_string()
}

/// Mint a random UUID.
pub fn fresh_uuid() -> (r: [u8; 16])
    ensures
        random_uuid(r@),
{
    new_random_uuid()
}

/// Whether sixteen bytes are a random UUID.
pub fn is_random_uuid(bytes: [u8; 16]) -> (r: bool)
    ensures
        r == random_uuid(bytes@),
{
    has_random_version(bytes) && has_rfc4122_variant(bytes)
}

/// Why bytes are no random UUID.
#[derive(Clone, Copy, Debug, PartialEq, Eq, Structural)]
pub enum UuidError {
    /// There are not sixteen of them.
    Length,
    /// The version or the variant is another one.
    Kind,
}

/// What reading a UUID gives.
pub open spec fn uuid_result(value: Seq<u8>) -> Result<Seq<u8>, UuidError> {
    if value.len() != 16 {
        Err(UuidError::Length)
    } else if !random_uuid(value) {
        Err(UuidError::Kind)
    } else {
        Ok(value)
    }
}

/// Read a random UUID.
pub fn uuid_bytes(value: &[u8]) -> (r: Result<[u8; 16], UuidError>)
    ensures
        match r {
            Ok(bytes) => uuid_result(value@) == Ok::<Seq<u8>, UuidError>(bytes@),
            Err(error) => uuid_result(value@) == Err::<Seq<u8>, UuidError>(error),
        },
{
    if value.len() != 16 {
        return Err(UuidError::Length);
    }
    let bytes: [u8; 16] = [
        value[0],
        value[1],
        value[2],
        value[3],
        value[4],
        value[5],
        value[6],
        value[7],
        value[8],
        value[9],
        value[10],
        value[11],
        value[12],
        value[13],
        value[14],
        value[15],
    ];
    assert(bytes@ =~= value@);
    if !is_random_uuid(bytes) {
        return Err(UuidError::Kind);
    }
    Ok(bytes)
}

/// Identity of a table.
#[derive(Clone, Copy, Debug, PartialEq, Eq, PartialOrd, Ord, Hash)]
pub struct TableId(pub [u8; 16]);

impl View for TableId {
    type V = Seq<u8>;

    open spec fn view(&self) -> Seq<u8> {
        self.0@
    }
}

impl TableId {
    /// The identity with these bytes.
    pub fn from_bytes(bytes: [u8; 16]) -> (r: Self)
        ensures
            r@ == bytes@,
    {
        TableId(bytes)
    }

    /// The identity's bytes.
    pub fn as_bytes(&self) -> (r: [u8; 16])
        ensures
            r@ == self@,
    {
        self.0
    }

    /// Whether two identities are one.
    pub fn same(&self, other: &Self) -> (r: bool)
        ensures
            r == (self@ == other@),
    {
        same_bytes(&self.0, &other.0)
    }

    /// Mint an identity.
    pub fn fresh() -> (r: Self)
        ensures
            random_uuid(r@),
    {
        TableId(fresh_uuid())
    }
}

/// Identity of a column.
#[derive(Clone, Copy, Debug, PartialEq, Eq, PartialOrd, Ord, Hash)]
pub struct ColumnId(pub [u8; 16]);

impl View for ColumnId {
    type V = Seq<u8>;

    open spec fn view(&self) -> Seq<u8> {
        self.0@
    }
}

impl ColumnId {
    /// The identity with these bytes.
    pub fn from_bytes(bytes: [u8; 16]) -> (r: Self)
        ensures
            r@ == bytes@,
    {
        ColumnId(bytes)
    }

    /// The identity's bytes.
    pub fn as_bytes(&self) -> (r: [u8; 16])
        ensures
            r@ == self@,
    {
        self.0
    }

    /// Whether two identities are one.
    pub fn same(&self, other: &Self) -> (r: bool)
        ensures
            r == (self@ == other@),
    {
        same_bytes(&self.0, &other.0)
    }

    /// Mint an identity.
    pub fn fresh() -> (r: Self)
        ensures
            random_uuid(r@),
    {
        ColumnId(fresh_uuid())
    }
}

/// Identity of an index.
#[derive(Clone, Copy, Debug, PartialEq, Eq, PartialOrd, Ord, Hash)]
pub struct IndexId(pub [u8; 16]);

impl View for IndexId {
    type V = Seq<u8>;

    open spec fn view(&self) -> Seq<u8> {
        self.0@
    }
}

impl IndexId {
    /// The identity with these bytes.
    pub fn from_bytes(bytes: [u8; 16]) -> (r: Self)
        ensures
            r@ == bytes@,
    {
        IndexId(bytes)
    }

    /// The identity's bytes.
    pub fn as_bytes(&self) -> (r: [u8; 16])
        ensures
            r@ == self@,
    {
        self.0
    }

    /// Whether two identities are one.
    pub fn same(&self, other: &Self) -> (r: bool)
        ensures
            r == (self@ == other@),
    {
        same_bytes(&self.0, &other.0)
    }

    /// Mint an identity.
    pub fn fresh() -> (r: Self)
        ensures
            random_uuid(r@),
    {
        IndexId(fresh_uuid())
    }
}

/// Identity of a foreign-key relationship.
#[derive(Clone, Copy, Debug, PartialEq, Eq, PartialOrd, Ord, Hash)]
pub struct ForeignKeyId(pub [u8; 16]);

impl View for ForeignKeyId {
    type V = Seq<u8>;

    open spec fn view(&self) -> Seq<u8> {
        self.0@
    }
}

impl ForeignKeyId {
    /// The identity with these bytes.
    pub fn from_bytes(bytes: [u8; 16]) -> (r: Self)
        ensures
            r@ == bytes@,
    {
        ForeignKeyId(bytes)
    }

    /// The identity's bytes.
    pub fn as_bytes(&self) -> (r: [u8; 16])
        ensures
            r@ == self@,
    {
        self.0
    }

    /// Whether two identities are one.
    pub fn same(&self, other: &Self) -> (r: bool)
        ensures
            r == (self@ == other@),
    {
        same_bytes(&self.0, &other.0)
    }

    /// Mint an identity.
    pub fn fresh() -> (r: Self)
        ensures
            random_uuid(r@),
    {
        ForeignKeyId(fresh_uuid())
    }
}

/// Identity of one schema mutation.
#[derive(Clone, Copy, Debug, PartialEq, Eq, PartialOrd, Ord, Hash)]
pub struct MutationId(pub [u8; 16]);

impl View for MutationId {
    type V = Seq<u8>;

    open spec fn view(&self) -> Seq<u8> {
        self.0@
    }
}

impl MutationId {
    /// The identity with these bytes.
    pub fn from_bytes(bytes: [u8; 16]) -> (r: Self)
        ensures
            r@ == bytes@,
    {
        MutationId(bytes)
    }

    /// The identity's bytes.
    pub fn as_bytes(&self) -> (r: [u8; 16])
        ensures
            r@ == self@,
    {
        self.0
    }

    /// Whether two identities are one.
    pub fn same(&self, other: &Self) -> (r: bool)
        ensures
            r == (self@ == other@),
    {
        same_bytes(&self.0, &other.0)
    }

    /// Mint an identity.
    pub fn fresh() -> (r: Self)
        ensures
            random_uuid(r@),
    {
        MutationId(fresh_uuid())
    }
}

/// Identity of one revision of a table's schema.
#[derive(Clone, Copy, Debug, PartialEq, Eq, PartialOrd, Ord, Hash)]
pub struct SchemaRevisionId(pub [u8; 16]);

impl View for SchemaRevisionId {
    type V = Seq<u8>;

    open spec fn view(&self) -> Seq<u8> {
        self.0@
    }
}

impl SchemaRevisionId {
    /// The identity with these bytes.
    pub fn from_bytes(bytes: [u8; 16]) -> (r: Self)
        ensures
            r@ == bytes@,
    {
        SchemaRevisionId(bytes)
    }

    /// The identity's bytes.
    pub fn as_bytes(&self) -> (r: [u8; 16])
        ensures
            r@ == self@,
    {
        self.0
    }

    /// Whether two identities are one.
    pub fn same(&self, other: &Self) -> (r: bool)
        ensures
            r == (self@ == other@),
    {
        same_bytes(&self.0, &other.0)
    }

    /// Mint an identity.
    pub fn fresh() -> (r: Self)
        ensures
            random_uuid(r@),
    {
        SchemaRevisionId(fresh_uuid())
    }
}

/// Different bytes have different texts in hexadecimal, of two digits for each.
pub proof fn hexadecimal_texts_differ(a: Seq<u8>, b: Seq<u8>)
    ensures
        hex_text(a).len() == 2 * a.len(),
        hex_text(a) == hex_text(b) <==> a == b,
{
    let x = hex_text(a);
    let y = hex_text(b);
    if x == y {
        assert(x.len() == y.len());
        assert forall|i: int| 0 <= i < a.len() implies a[i] == b[i] by {
            assert(x[2 * i] == y[2 * i]);
            assert(x[2 * i + 1] == y[2 * i + 1]);
            assert((2 * i) / 2 == i && (2 * i + 1) / 2 == i);
            assert((2 * i) % 2 == 0 && (2 * i + 1) % 2 == 1);
            lemma_hex_digit(a[i] as int / 16, b[i] as int / 16);
            lemma_hex_digit(a[i] as int % 16, b[i] as int % 16);
        }
        assert(a =~= b);
    }
}

/// Different digits have different letters.
proof fn lemma_hex_digit(d: int, e: int)
    requires
        0 <= d < 16,
        0 <= e < 16,
        hex_digit(d) == hex_digit(e),
    ensures
        d == e,
{
    assert(hex_digit(d) as int == (if d < 10 {
        48 + d
    } else {
        87 + d
    }));
    assert(hex_digit(e) as int == (if e < 10 {
        48 + e
    } else {
        87 + e
    }));
}

} // verus!
