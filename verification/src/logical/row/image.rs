//! Values as components of durable keys.

use super::error::RowCodecError;
use super::rules::KeyPartRules;
use crate::bytes::{append_bytes, append_u64, be32, be64, from_be64, lemma_be64_roundtrip};
use crate::double::{
    integer_value, magnitude, nearest_real, nearest_real_is_exact, real_bits, real_integer,
    lemma_real_integer_unique, real_is, SIGN_BIT,
};
use crate::key::bytes_less;
use crate::logical::types::Affinity;
use crate::value::{StoredValue, ValueView};
use vstd::prelude::*;

verus! {

/// Marks the image of a NULL value in an index.
pub const IMAGE_NULL: u8 = 0;

/// Marks the image of an integer.
pub const IMAGE_INTEGER: u8 = 1;

/// Marks the image of a number that is no 64-bit integer.
pub const IMAGE_REAL: u8 = 2;

/// Marks the image of text.
pub const IMAGE_TEXT: u8 = 3;

/// Marks the image of a blob.
pub const IMAGE_BLOB: u8 = 4;

/// The image of an integer: its offset from the smallest one.
pub open spec fn integer_image(v: int) -> Seq<u8> {
    seq![IMAGE_INTEGER] + be64((v + SIGN_BIT) as nat)
}

/// A bit pattern moved so that greater numbers have greater patterns.
pub open spec fn ordered_bits(bits: u64) -> nat {
    if bits < SIGN_BIT {
        (bits + SIGN_BIT) as nat
    } else {
        (u64::MAX - bits) as nat
    }
}

/// The image of a value that is not NULL.
pub open spec fn image_of(value: ValueView) -> Seq<u8> {
    match value {
        ValueView::Null => seq![IMAGE_NULL],
        ValueView::Integer(v) => integer_image(v as int),
        ValueView::Real(bits) => match real_integer(bits) {
            Some(v) => integer_image(v as int),
            None => seq![IMAGE_REAL] + be64(ordered_bits(bits)),
        },
        ValueView::Text(bytes) => seq![IMAGE_TEXT] + bytes,
        ValueView::Blob(bytes) => seq![IMAGE_BLOB] + bytes,
    }
}

/// The image of a key value: a number cannot stand in a text column, and NULL
/// has none.
pub open spec fn key_image_of(value: ValueView, affinity: Affinity) -> Result<
    Seq<u8>,
    RowCodecError,
> {
    if affinity == Affinity::Text && (value is Integer || value is Real) {
        Err(RowCodecError::InvalidRow)
    } else if value is Null {
        Err(RowCodecError::NullPrimaryKey)
    } else {
        Ok(image_of(value))
    }
}

/// The image of an indexed value, NULL among them.
pub open spec fn index_image_of(value: ValueView, affinity: Affinity) -> Result<
    Seq<u8>,
    RowCodecError,
> {
    if value is Null {
        Ok(image_of(value))
    } else {
        key_image_of(value, affinity)
    }
}

/// A captured value as its column holds it: an integer in a real column is the
/// nearest double.
pub open spec fn normalized(value: ValueView, affinity: Affinity) -> ValueView {
    match (affinity, value) {
        (Affinity::Real, ValueView::Integer(v)) => ValueView::Real(real_bits(v) as u64),
        _ => value,
    }
}

/// The image of an integer.
fn encode_integer(v: i64) -> (r: Vec<u8>)
    ensures
        r@ == integer_image(v as int),
{
    let mut image: Vec<u8> = Vec::new();
    image.push(IMAGE_INTEGER);
    let offset: u64 = if v >= 0 {
        v as u64 + SIGN_BIT
    } else {
        SIGN_BIT - 1 - (-(v + 1)) as u64
    };
    append_u64(&mut image, offset);
    assert(image@ =~= integer_image(v as int));
    image
}

/// The image of a key value.
pub fn key_image(value: &StoredValue, rules: KeyPartRules) -> (r: Result<Vec<u8>, RowCodecError>)
    ensures
        crate::codec::outcome(r) == key_image_of(value@, rules.affinity),
{
    if rules.affinity == Affinity::Text && matches!(
        value,
        StoredValue::Integer(_) | StoredValue::Real(_)
    ) {
        return Err(RowCodecError::InvalidRow);
    }
    match value {
        StoredValue::Null => Err(RowCodecError::NullPrimaryKey),
        StoredValue::Integer(v) => Ok(encode_integer(*v)),
        StoredValue::Real(bits) => {
            if let Some(v) = integer_value(*bits) {
                return Ok(encode_integer(v));
            }
            let ordered: u64 = if *bits < SIGN_BIT {
                *bits + SIGN_BIT
            } else {
                u64::MAX - *bits
            };
            let mut image: Vec<u8> = Vec::new();
            image.push(IMAGE_REAL);
            append_u64(&mut image, ordered);
            assert(image@ =~= image_of(value@));
            Ok(image)
        },
        StoredValue::Text(bytes) => {
            let mut image: Vec<u8> = Vec::new();
            image.push(IMAGE_TEXT);
            append_bytes(&mut image, bytes.as_slice());
            assert(image@ =~= image_of(value@));
            Ok(image)
        },
        StoredValue::Blob(bytes) => {
            let mut image: Vec<u8> = Vec::new();
            image.push(IMAGE_BLOB);
            append_bytes(&mut image, bytes.as_slice());
            assert(image@ =~= image_of(value@));
            Ok(image)
        },
    }
}

/// The image of an indexed value.
pub fn index_image(value: &StoredValue, rules: KeyPartRules) -> (r: Result<Vec<u8>, RowCodecError>)
    ensures
        crate::codec::outcome(r) == index_image_of(value@, rules.affinity),
{
    if let StoredValue::Null = value {
        let mut image: Vec<u8> = Vec::new();
        image.push(IMAGE_NULL);
        assert(image@ =~= image_of(value@));
        return Ok(image);
    }
    key_image(value, rules)
}

/// A captured value as its column holds it.
pub fn normalize_captured_value(value: &StoredValue, affinity: Affinity) -> (r: StoredValue)
    ensures
        r@ == normalized(value@, affinity),
{
    match (affinity, value) {
        (Affinity::Real, StoredValue::Integer(v)) => StoredValue::Real(nearest_real(*v)),
        _ => value.clone(),
    }
}

/// A number that equals an integer has the integer's image.
pub proof fn equal_numbers_share_their_image(bits: u64, v: i64)
    requires
        real_is(bits, v as int),
    ensures
        image_of(ValueView::Real(bits)) == image_of(ValueView::Integer(v)),
{
    let found = real_integer(bits)->Some_0;
    lemma_real_integer_unique(bits, found as int, v as int);
}

/// Storing an integer of at most 53 bits in a real column keeps its image.
pub proof fn normalizing_keeps_small_images(v: i64)
    requires
        magnitude(v) < 9007199254740992,
    ensures
        image_of(normalized(ValueView::Integer(v), Affinity::Real)) == image_of(
            ValueView::Integer(v),
        ),
{
    nearest_real_is_exact(v);
    equal_numbers_share_their_image(real_bits(v) as u64, v);
}

/// Four big-endian bytes are ordered as their numbers, whatever follows.
proof fn lemma_be32_order(a: nat, b: nat, x: Seq<u8>, y: Seq<u8>)
    requires
        a < 4294967296,
        b < 4294967296,
    ensures
        a < b ==> bytes_less(be32(a) + x, be32(b) + y),
        a == b ==> bytes_less(be32(a) + x, be32(b) + y) == bytes_less(x, y),
{
    let p = be32(a) + x;
    let q = be32(b) + y;
    let p1 = p.drop_first();
    let q1 = q.drop_first();
    let p2 = p1.drop_first();
    let q2 = q1.drop_first();
    let p3 = p2.drop_first();
    let q3 = q2.drop_first();
    assert(p3.drop_first() =~= x);
    assert(q3.drop_first() =~= y);
    assert(p[0] == (a / 16777216) as u8 && q[0] == (b / 16777216) as u8);
    assert(p1[0] == ((a / 65536) % 256) as u8 && q1[0] == ((b / 65536) % 256) as u8);
    assert(p2[0] == ((a / 256) % 256) as u8 && q2[0] == ((b / 256) % 256) as u8);
    assert(p3[0] == (a % 256) as u8 && q3[0] == (b % 256) as u8);
    assert(a / 65536 == (a / 16777216) * 256 + (a / 65536) % 256);
    assert(b / 65536 == (b / 16777216) * 256 + (b / 65536) % 256);
    assert(a / 256 == (a / 65536) * 256 + (a / 256) % 256);
    assert(b / 256 == (b / 65536) * 256 + (b / 256) % 256);
    assert(a == (a / 256) * 256 + a % 256);
    assert(b == (b / 256) * 256 + b % 256);
    reveal_with_fuel(bytes_less, 5);
}

/// The images of integers are ordered as the integers are.
pub proof fn integer_images_keep_order(a: i64, b: i64)
    requires
        a < b,
    ensures
        bytes_less(image_of(ValueView::Integer(a)), image_of(ValueView::Integer(b))),
{
    let m = (a + SIGN_BIT) as nat;
    let n = (b + SIGN_BIT) as nat;
    let end = Seq::<u8>::empty();
    lemma_be32_order(m % 4294967296, n % 4294967296, end, end);
    assert(be32(m % 4294967296) + end =~= be32(m % 4294967296));
    assert(be32(n % 4294967296) + end =~= be32(n % 4294967296));
    lemma_be32_order(
        m / 4294967296,
        n / 4294967296,
        be32(m % 4294967296),
        be32(n % 4294967296),
    );
    assert(image_of(ValueView::Integer(a)).drop_first() =~= be64(m));
    assert(image_of(ValueView::Integer(b)).drop_first() =~= be64(n));
}

/// Whether a value is a number and equals the integer.
pub open spec fn is_number(value: ValueView, v: i64) -> bool {
    match value {
        ValueView::Integer(n) => n == v,
        ValueView::Real(bits) => real_is(bits, v as int),
        _ => false,
    }
}

/// Whether two values are numbers that equal one integer.
pub open spec fn same_integer(a: ValueView, b: ValueView) -> bool {
    exists|v: i64| #[trigger] is_number(a, v) && is_number(b, v)
}

/// What is behind the mark of a value's image.
proof fn lemma_image_parts(value: ValueView)
    ensures
        match value {
            ValueView::Null => image_of(value) == seq![IMAGE_NULL],
            ValueView::Integer(v) => image_of(value)[0] == IMAGE_INTEGER && image_of(value).len()
                == 9 && from_be64(image_of(value).drop_first()) == v + SIGN_BIT,
            ValueView::Real(bits) => image_of(value).len() == 9 && match real_integer(bits) {
                Some(v) => real_is(bits, v as int) && image_of(value)[0] == IMAGE_INTEGER
                    && from_be64(image_of(value).drop_first()) == v + SIGN_BIT,
                None => image_of(value)[0] == IMAGE_REAL && from_be64(
                    image_of(value).drop_first(),
                ) == ordered_bits(bits),
            },
            ValueView::Text(bytes) => image_of(value)[0] == IMAGE_TEXT
                && image_of(value).drop_first() == bytes,
            ValueView::Blob(bytes) => image_of(value)[0] == IMAGE_BLOB
                && image_of(value).drop_first() == bytes,
        },
{
    match value {
        ValueView::Null => {},
        ValueView::Integer(v) => {
            lemma_be64_roundtrip((v + SIGN_BIT) as nat);
            assert(image_of(value).drop_first() =~= be64((v + SIGN_BIT) as nat));
        },
        ValueView::Real(bits) => match real_integer(bits) {
            Some(v) => {
                lemma_be64_roundtrip((v + SIGN_BIT) as nat);
                assert(image_of(value).drop_first() =~= be64((v + SIGN_BIT) as nat));
            },
            None => {
                lemma_be64_roundtrip(ordered_bits(bits));
                assert(image_of(value).drop_first() =~= be64(ordered_bits(bits)));
            },
        },
        ValueView::Text(bytes) => {
            assert(image_of(value).drop_first() =~= bytes);
        },
        ValueView::Blob(bytes) => {
            assert(image_of(value).drop_first() =~= bytes);
        },
    }
}

/// Two values share an image exactly where they are the same value, or
/// numbers that equal one integer. So two texts, or two blobs, that share an
/// image hold the same bytes, and no text shares one with a blob.
pub proof fn images_are_injective(a: ValueView, b: ValueView)
    ensures
        image_of(a) == image_of(b) <==> a == b || same_integer(a, b),
{
    lemma_image_parts(a);
    lemma_image_parts(b);
    if same_integer(a, b) {
        let v = choose|v: i64| #[trigger] is_number(a, v) && is_number(b, v);
        if let ValueView::Real(bits) = a {
            equal_numbers_share_their_image(bits, v);
        }
        if let ValueView::Real(bits) = b {
            equal_numbers_share_their_image(bits, v);
        }
    }
    if image_of(a) == image_of(b) && image_of(a)[0] == IMAGE_INTEGER {
        let v = (from_be64(image_of(a).drop_first()) - SIGN_BIT) as i64;
        assert(is_number(a, v) && is_number(b, v));
    }
}

/// A value has a key image exactly where it is not NULL, nor a number under a
/// text column; two values of one column share a key image exactly where they
/// are the same value, or numbers that equal one integer.
pub proof fn key_images_are_injective(a: ValueView, b: ValueView, affinity: Affinity)
    ensures
        key_image_of(a, affinity) is Ok <==> !(a is Null) && (affinity == Affinity::Text ==> !(
        a is Integer || a is Real)),
        key_image_of(a, affinity) is Ok && key_image_of(b, affinity) is Ok ==> (key_image_of(
            a,
            affinity,
        ) == key_image_of(b, affinity) <==> a == b || same_integer(a, b)),
{
    images_are_injective(a, b);
}

/// An indexed NULL has an image that no other value has, whatever the column.
pub proof fn null_has_an_index_image_of_its_own(value: ValueView, affinity: Affinity)
    ensures
        index_image_of(ValueView::Null, affinity) is Ok,
        index_image_of(value, affinity) == index_image_of(ValueView::Null, affinity)
            <==> value is Null,
        !(value is Null) ==> index_image_of(value, affinity) == key_image_of(value, affinity),
{
    images_are_injective(value, ValueView::Null);
}

/// Texts are ordered as their images are, and so are blobs; every number comes
/// before every text, and every text before every blob.
pub proof fn byte_images_keep_order(a: Seq<u8>, b: Seq<u8>, number: ValueView)
    requires
        number is Integer || number is Real,
    ensures
        bytes_less(image_of(ValueView::Text(a)), image_of(ValueView::Text(b))) == bytes_less(a, b),
        bytes_less(image_of(ValueView::Blob(a)), image_of(ValueView::Blob(b))) == bytes_less(a, b),
        bytes_less(image_of(ValueView::Text(a)), image_of(ValueView::Blob(b))),
        bytes_less(image_of(number), image_of(ValueView::Text(a))),
        bytes_less(image_of(ValueView::Null), image_of(number)),
{
    lemma_image_parts(ValueView::Text(a));
    lemma_image_parts(ValueView::Text(b));
    lemma_image_parts(ValueView::Blob(a));
    lemma_image_parts(ValueView::Blob(b));
    lemma_image_parts(number);
    reveal_with_fuel(bytes_less, 2);
}

/// The images of two numbers that are no 64-bit integers are ordered as the
/// numbers are: by their bit patterns where both are positive, against them
/// where both are negative, and a negative one comes before a positive one.
pub proof fn real_images_keep_order(a: u64, b: u64)
    requires
        real_integer(a) is None,
        real_integer(b) is None,
        if a < SIGN_BIT {
            a < b < SIGN_BIT
        } else {
            b < a
        },
    ensures
        bytes_less(image_of(ValueView::Real(a)), image_of(ValueView::Real(b))),
{
    let m = ordered_bits(a);
    let n = ordered_bits(b);
    let end = Seq::<u8>::empty();
    assert(m < n);
    lemma_be32_order(m % 4294967296, n % 4294967296, end, end);
    assert(be32(m % 4294967296) + end =~= be32(m % 4294967296));
    assert(be32(n % 4294967296) + end =~= be32(n % 4294967296));
    lemma_be32_order(
        m / 4294967296,
        n / 4294967296,
        be32(m % 4294967296),
        be32(n % 4294967296),
    );
    assert(image_of(ValueView::Real(a)).drop_first() =~= be64(m));
    assert(image_of(ValueView::Real(b)).drop_first() =~= be64(n));
}

/// A captured value changes only where an integer is stored in a real column,
/// which then holds a number; storing a value twice is storing it once.
pub proof fn normalizing_settles(value: ValueView, affinity: Affinity)
    ensures
        normalized(value, affinity) != value ==> affinity == Affinity::Real && value is Integer,
        affinity == Affinity::Real ==> !(normalized(value, affinity) is Integer),
        normalized(normalized(value, affinity), affinity) == normalized(value, affinity),
{
}

} // verus!
