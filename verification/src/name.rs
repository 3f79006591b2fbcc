//! SQL names and the identifiers rendered from them.

use crate::bytes::{copy_bytes, same_bytes};
use vstd::prelude::*;
use vstd::utf8::*;

verus! {

/// An ASCII letter in lower case; any other byte as it is.
pub open spec fn folded(b: u8) -> u8 {
    if 65 <= b <= 90 {
        (b + 32) as u8
    } else {
        b
    }
}

/// The bytes by which SQLite compares names: UTF-8 with ASCII letters folded.
pub open spec fn canonical_bytes(name: Seq<char>) -> Seq<u8> {
    encode_utf8(name).map_values(|b: u8| folded(b))
}

/// Fold the ASCII letters of a byte string.
pub fn fold_bytes(bytes: &[u8]) -> (r: Vec<u8>)
    ensures
        r@ == bytes@.map_values(|b: u8| folded(b)),
{
    let mut out: Vec<u8> = Vec::new();
    let mut i: usize = 0;
    while i < bytes.len()
        invariant
            i <= bytes@.len(),
            out@.len() == i,
            forall|j: int| 0 <= j < i ==> #[trigger] out@[j] == folded(bytes@[j]),
        decreases bytes.len() - i,
    {
        let b: u8 = bytes[i];
        if 65 <= b && b <= 90 {
            out.push(b + 32);
        } else {
            out.push(b);
        }
        i += 1;
    }
    assert(out@ =~= bytes@.map_values(|b: u8| folded(b)));
    out
}

/// Equal UTF-8 bytes are equal texts.
pub proof fn lemma_text_of_bytes(a: Seq<char>, b: Seq<char>)
    requires
        encode_utf8(a) == encode_utf8(b),
    ensures
        a == b,
{
    encode_utf8_decode_utf8(a);
    encode_utf8_decode_utf8(b);
}

/// Whether two texts are equal.
pub fn same_text(a: &str, b: &str) -> (r: bool)
    ensures
        r == (a@ == b@),
{
    let r = same_bytes(a.as_bytes(), b.as_bytes());
    proof {
        if r {
            lemma_text_of_bytes(a@, b@);
        }
    }
    r
}

/// The text of valid UTF-8 bytes.
pub open spec fn text_result(bytes: Seq<u8>) -> Option<Seq<char>> {
    if valid_utf8(bytes) {
        Some(decode_utf8(bytes))
    } else {
        None
    }
}

/// `std::string::String::from_utf8`. The contract says that it gives the
/// decoded text exactly where the bytes are valid UTF-8.
#[verifier::external_body]
fn string_from_utf8(bytes: Vec<u8>) -> (r: Option<String>)
    ensures
        r is Some <==> valid_utf8(bytes@),
        r matches Some(text) ==> text@ == decode_utf8(bytes@),
{
    String::from_utf8(bytes).ok()
}

/// Read UTF-8 text.
pub fn read_text(bytes: &[u8]) -> (r: Option<String>)
    ensures
        match r {
            Some(text) => text_result(bytes@) == Some(text@),
            None => text_result(bytes@) is None,
        },
{
    string_from_utf8(copy_bytes(bytes))
}

/// A name as the user wrote it, with the form by which it is compared.
#[derive(Debug, PartialEq, Eq)]
pub struct SqlName {
    value: String,
    canonical: Vec<u8>,
}

impl View for SqlName {
    type V = Seq<char>;

    closed spec fn view(&self) -> Seq<char> {
        self.value@
    }
}

impl SqlName {
    #[verifier::type_invariant]
    spec fn well_formed(self) -> bool {
        self.canonical@ == canonical_bytes(self.value@)
    }

    /// The name with this spelling.
    pub fn new(value: String) -> (r: SqlName)
        ensures
            r@ == value@,
    {
        let canonical = fold_bytes(value.as_str().as_bytes());
        SqlName { value, canonical }
    }

    /// The name as the user wrote it.
    pub fn value(&self) -> (r: &str)
        ensures
            r@ == self@,
    {
        self.value.as_str()
    }

    /// The form by which the name is compared.
    pub fn canonical(&self) -> (r: &[u8])
        ensures
            r@ == canonical_bytes(self@),
    {
        proof {
            use_type_invariant(self);
        }
        self.canonical.as_slice()
    }

    /// Whether two names are spelled alike.
    pub fn same(&self, other: &SqlName) -> (r: bool)
        ensures
            r == (self@ == other@),
    {
        same_text(self.value.as_str(), other.value.as_str())
    }

    /// Whether two names bind the same object.
    pub fn same_canonical(&self, other: &SqlName) -> (r: bool)
        ensures
            r == (canonical_bytes(self@) == canonical_bytes(other@)),
    {
        same_bytes(self.canonical(), other.canonical())
    }
}

impl Clone for SqlName {
    fn clone(&self) -> (r: Self)
        ensures
            r@ == self@,
    {
        SqlName::new(self.value.clone())
    }
}

/// Whether two bytes are the same, or one ASCII letter in both cases.
pub open spec fn same_letter(a: u8, b: u8) -> bool {
    ||| a == b
    ||| 65 <= a <= 90 && b == a + 32
    ||| 65 <= b <= 90 && a == b + 32
}

/// Two names bind alike exactly where they are as long as each other in UTF-8
/// and every byte of the one is that of the other, or the same ASCII letter in
/// the other case.
pub proof fn names_bind_alike_but_for_case(a: Seq<char>, b: Seq<char>)
    ensures
        canonical_bytes(a) == canonical_bytes(b) <==> {
            &&& encode_utf8(a).len() == encode_utf8(b).len()
            &&& forall|i: int|
                0 <= i < encode_utf8(a).len() ==> same_letter(
                    #[trigger] encode_utf8(a)[i],
                    encode_utf8(b)[i],
                )
        },
{
    let x = canonical_bytes(a);
    let y = canonical_bytes(b);
    if x == y {
        assert(x.len() == y.len());
        assert forall|i: int| 0 <= i < encode_utf8(a).len() implies same_letter(
            #[trigger] encode_utf8(a)[i],
            encode_utf8(b)[i],
        ) by {
            assert(x[i] == y[i]);
        }
    }
    if encode_utf8(a).len() == encode_utf8(b).len() && forall|i: int|
        0 <= i < encode_utf8(a).len() ==> same_letter(
            #[trigger] encode_utf8(a)[i],
            encode_utf8(b)[i],
        ) {
        assert forall|i: int| 0 <= i < x.len() implies x[i] == y[i] by {
            assert(same_letter(encode_utf8(a)[i], encode_utf8(b)[i]));
        }
        assert(x =~= y);
    }
}

} // verus!
