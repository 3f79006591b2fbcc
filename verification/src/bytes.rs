//! Byte strings, big-endian integers, and the tagged-field frames made of them.
//!
//! A frame is a sequence of fields. Each field is one tag byte, the payload
//! length as a big-endian `u32`, and the payload itself.

use vstd::prelude::*;

verus! {

/// The number that four big-endian bytes stand for.
pub open spec fn from_be32(b: Seq<u8>) -> nat {
    (b[0] as nat) * 16777216 + (b[1] as nat) * 65536 + (b[2] as nat) * 256 + (b[3] as nat)
}

/// The four big-endian bytes of a number below 2^32.
pub open spec fn be32(n: nat) -> Seq<u8> {
    seq![
        (n / 16777216) as u8,
        ((n / 65536) % 256) as u8,
        ((n / 256) % 256) as u8,
        (n % 256) as u8,
    ]
}

/// The number that eight big-endian bytes stand for.
pub open spec fn from_be64(b: Seq<u8>) -> nat {
    from_be32(b.subrange(0, 4)) * 4294967296 + from_be32(b.subrange(4, 8))
}

/// The eight big-endian bytes of a number below 2^64.
pub open spec fn be64(n: nat) -> Seq<u8> {
    be32(n / 4294967296) + be32(n % 4294967296)
}

/// The two's-complement bit pattern of a signed 64-bit integer.
pub open spec fn bits64(v: i64) -> nat {
    if v >= 0 {
        v as nat
    } else {
        (v + 18446744073709551616) as nat
    }
}

/// The two's-complement bit pattern of a signed 32-bit integer.
pub open spec fn bits32(v: i32) -> nat {
    if v >= 0 {
        v as nat
    } else {
        (v + 4294967296) as nat
    }
}

/// Reading back the big-endian bytes of a 32-bit number gives the number.
pub proof fn lemma_be32_roundtrip(n: nat)
    requires
        n < 4294967296,
    ensures
        be32(n).len() == 4,
        from_be32(be32(n)) == n,
{
    let a = n / 16777216;
    let b = (n / 65536) % 256;
    let c = (n / 256) % 256;
    let d = n % 256;
    assert(a < 256);
    assert(n / 65536 == a * 256 + b);
    assert(n / 256 == (n / 65536) * 256 + c);
    assert(n == (n / 256) * 256 + d);
}

/// Four bytes are the big-endian bytes of the number they stand for.
pub proof fn lemma_from_be32_roundtrip(b: Seq<u8>)
    requires
        b.len() == 4,
    ensures
        from_be32(b) < 4294967296,
        be32(from_be32(b)) == b,
{
    let n = from_be32(b);
    let b0 = b[0] as nat;
    let b1 = b[1] as nat;
    let b2 = b[2] as nat;
    assert(n / 16777216 == b0);
    assert(n / 65536 == b0 * 256 + b1);
    assert(n / 256 == b0 * 65536 + b1 * 256 + b2);
    assert(be32(n) =~= b);
}

/// Reading back the big-endian bytes of a 64-bit number gives the number.
pub proof fn lemma_be64_roundtrip(n: nat)
    requires
        n < 18446744073709551616,
    ensures
        be64(n).len() == 8,
        from_be64(be64(n)) == n,
{
    lemma_be32_roundtrip(n / 4294967296);
    lemma_be32_roundtrip(n % 4294967296);
    assert(be64(n).subrange(0, 4) =~= be32(n / 4294967296));
    assert(be64(n).subrange(4, 8) =~= be32(n % 4294967296));
}

/// Whether two byte slices hold the same bytes.
pub fn same_bytes(a: &[u8], b: &[u8]) -> (r: bool)
    ensures
        r == (a@ == b@),
{
    if a.len() != b.len() {
        return false;
    }
    let mut i: usize = 0;
    while i < a.len()
        invariant
            i <= a.len(),
            a.len() == b.len(),
            forall|j: int| 0 <= j < i ==> a@[j] == b@[j],
        decreases a.len() - i,
    {
        if a[i] != b[i] {
            return false;
        }
        i += 1;
    }
    assert(a@ =~= b@);
    true
}

/// A fresh vector of the slice's bytes.
pub fn copy_bytes(a: &[u8]) -> (r: Vec<u8>)
    ensures
        r@ == a@,
{
    vstd::slice::slice_to_vec(a)
}

/// Append a slice to a vector.
pub fn append_bytes(out: &mut Vec<u8>, a: &[u8])
    ensures
        final(out)@ == old(out)@ + a@,
{
    out.extend_from_slice(a);
    assert(out@ =~= old(out)@ + a@);
}

/// Append a 32-bit number in big-endian order.
pub fn append_u32(out: &mut Vec<u8>, n: u32)
    ensures
        final(out)@ == old(out)@ + be32(n as nat),
{
    out.push((n / 16777216) as u8);
    out.push(((n / 65536) % 256) as u8);
    out.push(((n / 256) % 256) as u8);
    out.push((n % 256) as u8);
    assert(out@ =~= old(out)@ + be32(n as nat));
}

/// Append a 64-bit number in big-endian order.
pub fn append_u64(out: &mut Vec<u8>, n: u64)
    ensures
        final(out)@ == old(out)@ + be64(n as nat),
{
    append_u32(out, (n / 4294967296) as u32);
    append_u32(out, (n % 4294967296) as u32);
    assert(out@ =~= old(out)@ + be64(n as nat));
}

/// Read four big-endian bytes.
pub fn read_u32(b: &[u8]) -> (n: u32)
    requires
        b@.len() == 4,
    ensures
        n == from_be32(b@),
{
    (b[0] as u32) * 16777216 + (b[1] as u32) * 65536 + (b[2] as u32) * 256 + (b[3] as u32)
}

/// Read eight big-endian bytes.
pub fn read_u64(b: &[u8]) -> (n: u64)
    requires
        b@.len() == 8,
    ensures
        n == from_be64(b@),
{
    let high = vstd::slice::slice_subrange(b, 0, 4);
    let low = vstd::slice::slice_subrange(b, 4, 8);
    (read_u32(high) as u64) * 4294967296 + (read_u32(low) as u64)
}

/// The bit pattern of a signed 64-bit integer.
pub fn to_bits64(v: i64) -> (bits: u64)
    ensures
        bits == bits64(v),
{
    if v >= 0 {
        v as u64
    } else {
        u64::MAX - ((-(v + 1)) as u64)
    }
}

/// The signed 64-bit integer with the given bit pattern.
pub fn from_bits64(bits: u64) -> (v: i64)
    ensures
        bits64(v) == bits,
{
    if bits <= 9223372036854775807 {
        bits as i64
    } else {
        -((u64::MAX - bits) as i64) - 1
    }
}

/// The bit pattern of a signed 32-bit integer.
pub fn to_bits32(v: i32) -> (bits: u32)
    ensures
        bits == bits32(v),
{
    if v >= 0 {
        v as u32
    } else {
        u32::MAX - ((-(v + 1)) as u32)
    }
}

/// The signed 32-bit integer with the given bit pattern.
pub fn from_bits32(bits: u32) -> (v: i32)
    ensures
        bits32(v) == bits,
{
    if bits <= 2147483647 {
        bits as i32
    } else {
        -((u32::MAX - bits) as i32) - 1
    }
}

/// Whether a payload length can be written in a field.
pub open spec fn fits(payload: Seq<u8>) -> bool {
    payload.len() <= u32::MAX
}

/// The bytes of one field.
pub open spec fn field_bytes(tag: u8, payload: Seq<u8>) -> Seq<u8> {
    seq![tag] + be32(payload.len()) + payload
}

/// The bytes of a list of fields, in order.
pub open spec fn fields_bytes(fields: Seq<(u8, Seq<u8>)>) -> Seq<u8>
    decreases fields.len(),
{
    if fields.len() == 0 {
        Seq::empty()
    } else {
        fields_bytes(fields.drop_last()) + field_bytes(fields.last().0, fields.last().1)
    }
}

/// Whether every payload of a field list can be written.
pub open spec fn fields_fit(fields: Seq<(u8, Seq<u8>)>) -> bool {
    forall|i: int| 0 <= i < fields.len() ==> fits((#[trigger] fields[i]).1)
}

/// The first field of a frame: its tag, its payload, and the bytes behind it.
pub open spec fn next_field(b: Seq<u8>) -> Option<(u8, Seq<u8>, Seq<u8>)> {
    if b.len() < 5 {
        None
    } else {
        let n = from_be32(b.subrange(1, 5));
        if b.len() < 5 + n {
            None
        } else {
            Some((b[0], b.subrange(5, 5 + n as int), b.subrange(5 + n as int, b.len() as int)))
        }
    }
}

/// What a reader ends with that hands the fields of a frame, front to back, to
/// `step`: the first error of `step`, or `truncated` where the next field is
/// not complete, or the state behind the last field.
pub open spec fn run_fields<S, E>(
    state: S,
    b: Seq<u8>,
    step: spec_fn(S, u8, Seq<u8>) -> Result<S, E>,
    truncated: E,
) -> Result<S, E>
    decreases b.len(),
{
    if b.len() == 0 {
        Ok(state)
    } else {
        match next_field(b) {
            None => Err(truncated),
            Some((tag, payload, rest)) => match step(state, tag, payload) {
                Err(error) => Err(error),
                Ok(next) => run_fields(next, rest, step, truncated),
            },
        }
    }
}

/// A written field is read back whole, whatever follows it.
pub proof fn lemma_next_field(tag: u8, payload: Seq<u8>, rest: Seq<u8>)
    requires
        fits(payload),
    ensures
        next_field(field_bytes(tag, payload) + rest) == Some((tag, payload, rest)),
{
    let b = field_bytes(tag, payload) + rest;
    let n = payload.len();
    lemma_be32_roundtrip(n);
    assert(b.subrange(1, 5) =~= be32(n));
    assert(b.subrange(5, 5 + n as int) =~= payload);
    assert(b.subrange(5 + n as int, b.len() as int) =~= rest);
}

/// Appending a field to a list appends its bytes.
pub proof fn lemma_fields_push(fields: Seq<(u8, Seq<u8>)>, tag: u8, payload: Seq<u8>)
    ensures
        fields_bytes(fields.push((tag, payload))) == fields_bytes(fields) + field_bytes(
            tag,
            payload,
        ),
{
    assert(fields.push((tag, payload)).drop_last() =~= fields);
}

/// The bytes of two field lists behind each other.
pub proof fn lemma_fields_concat(a: Seq<(u8, Seq<u8>)>, b: Seq<(u8, Seq<u8>)>)
    ensures
        fields_bytes(a + b) == fields_bytes(a) + fields_bytes(b),
    decreases b.len(),
{
    if b.len() == 0 {
        assert(a + b =~= a);
        assert(fields_bytes(a) + fields_bytes(b) =~= fields_bytes(a));
    } else {
        lemma_fields_concat(a, b.drop_last());
        assert((a + b).drop_last() =~= a + b.drop_last());
        assert(fields_bytes(a + b) =~= fields_bytes(a) + fields_bytes(b));
    }
}

/// The state behind a list of fields that are handed to `step` front to back,
/// or its first error.
pub open spec fn fold_fields<S, E>(
    state: S,
    fields: Seq<(u8, Seq<u8>)>,
    step: spec_fn(S, u8, Seq<u8>) -> Result<S, E>,
) -> Result<S, E>
    decreases fields.len(),
{
    if fields.len() == 0 {
        Ok(state)
    } else {
        match fold_fields(state, fields.drop_last(), step) {
            Err(error) => Err(error),
            Ok(next) => step(next, fields.last().0, fields.last().1),
        }
    }
}

/// One more field takes one more step.
pub proof fn lemma_fold_push<S, E>(
    state: S,
    fields: Seq<(u8, Seq<u8>)>,
    tag: u8,
    payload: Seq<u8>,
    step: spec_fn(S, u8, Seq<u8>) -> Result<S, E>,
)
    ensures
        fold_fields(state, fields.push((tag, payload)), step) == (match fold_fields(
            state,
            fields,
            step,
        ) {
            Err(error) => Err(error),
            Ok(next) => step(next, tag, payload),
        }),
{
    assert(fields.push((tag, payload)).drop_last() =~= fields);
}

/// A list whose steps all succeed ends in the state behind its last field.
pub proof fn lemma_fold_list<S, E>(
    state: S,
    before: Seq<(u8, Seq<u8>)>,
    fields: Seq<(u8, Seq<u8>)>,
    states: spec_fn(int) -> S,
    step: spec_fn(S, u8, Seq<u8>) -> Result<S, E>,
)
    requires
        fold_fields(state, before, step) == Ok::<S, E>(states(0)),
        forall|i: int|
            0 <= i < fields.len() ==> #[trigger] step(states(i), fields[i].0, fields[i].1)
                == Ok::<S, E>(states(i + 1)),
    ensures
        fold_fields(state, before + fields, step) == Ok::<S, E>(states(fields.len() as int)),
    decreases fields.len(),
{
    if fields.len() == 0 {
        assert(before + fields =~= before);
    } else {
        let init = fields.drop_last();
        let last = fields.last();
        assert forall|i: int| 0 <= i < init.len() implies #[trigger] step(
            states(i),
            init[i].0,
            init[i].1,
        ) == Ok::<S, E>(states(i + 1)) by {
            assert(step(states(i), fields[i].0, fields[i].1) == Ok::<S, E>(states(i + 1)));
        }
        lemma_fold_list(state, before, init, states, step);
        assert(before + fields =~= (before + init).push(last));
        lemma_fold_push(state, before + init, last.0, last.1, step);
        let n = init.len() as int;
        assert(step(states(n), fields[n].0, fields[n].1) == Ok::<S, E>(states(n + 1)));
    }
}

/// Reading written fields folds over them.
pub proof fn lemma_run_fold<S, E>(
    state: S,
    fields: Seq<(u8, Seq<u8>)>,
    step: spec_fn(S, u8, Seq<u8>) -> Result<S, E>,
    truncated: E,
)
    requires
        fields_fit(fields),
    ensures
        run_fields(state, fields_bytes(fields), step, truncated) == fold_fields(
            state,
            fields,
            step,
        ),
{
    let end = Seq::<u8>::empty();
    lemma_run_fold_before(state, fields, end, step, truncated);
    assert(fields_bytes(fields) + end =~= fields_bytes(fields));
}

/// Reading written fields folds over them and goes on with what follows.
proof fn lemma_run_fold_before<S, E>(
    state: S,
    fields: Seq<(u8, Seq<u8>)>,
    rest: Seq<u8>,
    step: spec_fn(S, u8, Seq<u8>) -> Result<S, E>,
    truncated: E,
)
    requires
        fields_fit(fields),
    ensures
        run_fields(state, fields_bytes(fields) + rest, step, truncated) == (match fold_fields(
            state,
            fields,
            step,
        ) {
            Err(error) => Err(error),
            Ok(next) => run_fields(next, rest, step, truncated),
        }),
    decreases fields.len(),
{
    if fields.len() == 0 {
        assert(fields_bytes(fields) + rest =~= rest);
    } else {
        let init = fields.drop_last();
        let last = fields.last();
        assert(fits(fields[fields.len() - 1].1));
        assert(fields_fit(init)) by {
            assert forall|i: int| 0 <= i < init.len() implies fits((#[trigger] init[i]).1) by {
                assert(fits(fields[i].1));
            }
        }
        let tail = field_bytes(last.0, last.1) + rest;
        lemma_run_fold_before(state, init, tail, step, truncated);
        assert(fields_bytes(fields) + rest =~= fields_bytes(init) + tail);
        if let Ok(next) = fold_fields(state, init, step) {
            lemma_next_field(last.0, last.1, rest);
        }
    }
}

/// Reading written fields that lack their last byte ends where a field is not
/// complete.
pub proof fn lemma_run_cut<S, E>(
    state: S,
    fields: Seq<(u8, Seq<u8>)>,
    step: spec_fn(S, u8, Seq<u8>) -> Result<S, E>,
    truncated: E,
)
    requires
        fields_fit(fields),
        fields.len() > 0,
        fold_fields(state, fields, step) is Ok,
    ensures
        run_fields(state, fields_bytes(fields).drop_last(), step, truncated) == Err::<S, E>(
            truncated,
        ),
{
    let init = fields.drop_last();
    let last = fields.last();
    assert(fits(fields[fields.len() - 1].1));
    assert(fields_fit(init)) by {
        assert forall|i: int| 0 <= i < init.len() implies fits((#[trigger] init[i]).1) by {
            assert(fits(fields[i].1));
        }
    }
    let whole = field_bytes(last.0, last.1);
    let tail = whole.drop_last();
    assert(fields_bytes(fields).drop_last() =~= fields_bytes(init) + tail);
    lemma_run_fold_before(state, init, tail, step, truncated);
    lemma_be32_roundtrip(last.1.len());
    if tail.len() >= 5 {
        assert(tail.subrange(1, 5) =~= be32(last.1.len()));
    }
    assert(next_field(tail) is None);
}

/// Reading written fields and one more folds over all of them.
pub proof fn lemma_run_more<S, E>(
    state: S,
    fields: Seq<(u8, Seq<u8>)>,
    tag: u8,
    payload: Seq<u8>,
    step: spec_fn(S, u8, Seq<u8>) -> Result<S, E>,
    truncated: E,
)
    requires
        fields_fit(fields),
        fits(payload),
        fold_fields(state, fields, step) is Ok,
    ensures
        run_fields(state, fields_bytes(fields) + field_bytes(tag, payload), step, truncated)
            == step(fold_fields(state, fields, step)->Ok_0, tag, payload),
{
    let more = fields.push((tag, payload));
    lemma_fit_push(fields, tag, payload);
    lemma_fields_push(fields, tag, payload);
    lemma_fold_push(state, fields, tag, payload, step);
    lemma_run_fold(state, more, step, truncated);
}

/// Where every step keeps a state good and adds no more than its field's bytes,
/// so does reading them all.
pub proof fn lemma_run_bounded<S, E>(
    state: S,
    b: Seq<u8>,
    step: spec_fn(S, u8, Seq<u8>) -> Result<S, E>,
    good: spec_fn(S) -> bool,
    size: spec_fn(S) -> nat,
    truncated: E,
)
    requires
        good(state),
        forall|s: S, tag: u8, payload: Seq<u8>|
            good(s) && fits(payload) && (#[trigger] step(s, tag, payload)) is Ok ==> good(
                step(s, tag, payload)->Ok_0,
            ) && size(step(s, tag, payload)->Ok_0) <= size(s) + 5 + payload.len(),
    ensures
        run_fields(state, b, step, truncated) matches Ok(end) ==> good(end) && size(end) <= size(
            state,
        ) + b.len(),
    decreases b.len(),
{
    if b.len() > 0 {
        if let Some((tag, payload, rest)) = next_field(b) {
            lemma_from_be32_roundtrip(b.subrange(1, 5));
            if let Ok(next) = step(state, tag, payload) {
                lemma_run_bounded(next, rest, step, good, size, truncated);
            }
        }
    }
}

/// One more field that fits.
pub proof fn lemma_fit_push(fields: Seq<(u8, Seq<u8>)>, tag: u8, payload: Seq<u8>)
    requires
        fields_fit(fields),
        fits(payload),
    ensures
        fields_fit(fields.push((tag, payload))),
{
    let more = fields.push((tag, payload));
    assert forall|i: int| 0 <= i < more.len() implies fits((#[trigger] more[i]).1) by {
        if i < fields.len() {
            assert(more[i] == fields[i]);
        }
    }
}

/// Two lists of fields that fit.
pub proof fn lemma_fit_concat(a: Seq<(u8, Seq<u8>)>, b: Seq<(u8, Seq<u8>)>)
    requires
        fields_fit(a),
        fields_fit(b),
    ensures
        fields_fit(a + b),
{
    let both = a + b;
    assert forall|i: int| 0 <= i < both.len() implies fits((#[trigger] both[i]).1) by {
        if i < a.len() {
            assert(both[i] == a[i]);
        } else {
            assert(both[i] == b[i - a.len()]);
        }
    }
}

/// The length of one more field.
pub proof fn lemma_fields_len(fields: Seq<(u8, Seq<u8>)>, tag: u8, payload: Seq<u8>)
    ensures
        fields_bytes(fields.push((tag, payload))).len() == fields_bytes(fields).len() + 5
            + payload.len(),
{
    lemma_fields_push(fields, tag, payload);
}

/// A payload is no longer than the frame that holds its field.
pub proof fn lemma_field_within(fields: Seq<(u8, Seq<u8>)>, i: int)
    requires
        0 <= i < fields.len(),
    ensures
        fields[i].1.len() + 5 <= fields_bytes(fields).len(),
    decreases fields.len(),
{
    if i < fields.len() - 1 {
        lemma_field_within(fields.drop_last(), i);
        assert(fields.drop_last()[i] == fields[i]);
    }
}

/// The field reader's error: the next field is not complete.
#[derive(Clone, Copy, Debug, PartialEq, Eq, Structural)]
pub struct FieldTruncated;

/// The field writer's error: the payload's length exceeds a `u32`.
#[derive(Clone, Copy, Debug, PartialEq, Eq, Structural)]
pub struct FieldTooLarge;

/// A cursor over the bytes of a frame.
pub struct Reader<'a> {
    rest: &'a [u8],
}

impl<'a> Reader<'a> {
    /// The bytes that have not been read.
    pub closed spec fn remaining(&self) -> Seq<u8> {
        self.rest@
    }

    /// Start reading at the first byte.
    pub fn new(bytes: &'a [u8]) -> (reader: Reader<'a>)
        ensures
            reader.remaining() == bytes@,
    {
        Reader { rest: bytes }
    }

    /// Read one byte.
    pub fn u8(&mut self) -> (r: Option<u8>)
        ensures
            old(self).remaining().len() == 0 ==> r is None && final(self).remaining() == old(
                self,
            ).remaining(),
            old(self).remaining().len() > 0 ==> r == Some(old(self).remaining()[0])
                && final(self).remaining() == old(self).remaining().subrange(
                1,
                old(self).remaining().len() as int,
            ),
    {
        if self.rest.len() == 0 {
            return None;
        }
        let byte: u8 = self.rest[0];
        self.rest = vstd::slice::slice_subrange(self.rest, 1, self.rest.len());
        Some(byte)
    }

    /// Read a big-endian `u32`.
    pub fn u32(&mut self) -> (r: Option<u32>)
        ensures
            old(self).remaining().len() < 4 ==> r is None && final(self).remaining() == old(
                self,
            ).remaining(),
            old(self).remaining().len() >= 4 ==> r == Some(
                from_be32(old(self).remaining().subrange(0, 4)) as u32,
            ) && from_be32(old(self).remaining().subrange(0, 4)) <= u32::MAX
                && final(self).remaining() == old(self).remaining().subrange(
                4,
                old(self).remaining().len() as int,
            ),
    {
        if self.rest.len() < 4 {
            return None;
        }
        let n: u32 = read_u32(vstd::slice::slice_subrange(self.rest, 0, 4));
        self.rest = vstd::slice::slice_subrange(self.rest, 4, self.rest.len());
        Some(n)
    }

    /// Read one field, or learn that no byte is left.
    pub fn field(&mut self) -> (r: Result<Option<(u8, &'a [u8])>, FieldTruncated>)
        ensures
            old(self).remaining().len() == 0 ==> r == Ok::<
                Option<(u8, &'a [u8])>,
                FieldTruncated,
            >(None) && final(self).remaining() == old(self).remaining(),
            old(self).remaining().len() > 0 ==> match next_field(old(self).remaining()) {
                None => r is Err,
                Some((tag, payload, rest)) => {
                    &&& r is Ok
                    &&& r->Ok_0 is Some
                    &&& r->Ok_0->Some_0.0 == tag
                    &&& r->Ok_0->Some_0.1@ == payload
                    &&& final(self).remaining() == rest
                    &&& rest.len() < old(self).remaining().len()
                },
            },
    {
        if self.rest.len() == 0 {
            return Ok(None);
        }
        if self.rest.len() < 5 {
            return Err(FieldTruncated);
        }
        let tag: u8 = self.rest[0];
        let length: u32 = read_u32(vstd::slice::slice_subrange(self.rest, 1, 5));
        let available: usize = self.rest.len() - 5;
        if (available as u64) < (length as u64) {
            return Err(FieldTruncated);
        }
        let end: usize = 5 + length as usize;
        let payload = vstd::slice::slice_subrange(self.rest, 5, end);
        self.rest = vstd::slice::slice_subrange(self.rest, end, self.rest.len());
        Ok(Some((tag, payload)))
    }

    /// Every byte that has not been read.
    pub fn rest(&self) -> (r: &'a [u8])
        ensures
            r@ == self.remaining(),
    {
        self.rest
    }

    /// Whether every byte has been read.
    pub fn is_empty(&self) -> (r: bool)
        ensures
            r == (self.remaining().len() == 0),
    {
        self.rest.len() == 0
    }

    /// Confirm that every byte has been read.
    pub fn end(&self) -> (r: Option<()>)
        ensures
            r is Some <==> self.remaining().len() == 0,
    {
        if self.rest.len() == 0 {
            Some(())
        } else {
            None
        }
    }
}

/// A growing frame.
pub struct Writer {
    bytes: Vec<u8>,
}

impl Writer {
    /// The bytes written so far.
    pub closed spec fn view(&self) -> Seq<u8> {
        self.bytes@
    }

    /// Start an empty frame.
    pub fn new() -> (writer: Writer)
        ensures
            writer@ == Seq::<u8>::empty(),
    {
        Writer { bytes: Vec::new() }
    }

    /// Write one byte.
    pub fn u8(&mut self, byte: u8)
        ensures
            final(self)@ == old(self)@.push(byte),
    {
        self.bytes.push(byte);
    }

    /// Write a big-endian `u32`.
    pub fn u32(&mut self, n: u32)
        ensures
            final(self)@ == old(self)@ + be32(n as nat),
    {
        append_u32(&mut self.bytes, n);
    }

    /// Write raw bytes.
    pub fn bytes(&mut self, bytes: &[u8])
        ensures
            final(self)@ == old(self)@ + bytes@,
    {
        append_bytes(&mut self.bytes, bytes);
    }

    /// Write one field. A payload whose length exceeds a `u32` is refused and
    /// leaves the frame as it was.
    pub fn field(&mut self, tag: u8, payload: &[u8]) -> (r: Result<(), FieldTooLarge>)
        ensures
            r is Ok <==> fits(payload@),
            r is Ok ==> final(self)@ == old(self)@ + field_bytes(tag, payload@),
            r is Err ==> final(self)@ == old(self)@,
    {
        if payload.len() as u64 > u32::MAX as u64 {
            return Err(FieldTooLarge);
        }
        self.bytes.push(tag);
        append_u32(&mut self.bytes, payload.len() as u32);
        append_bytes(&mut self.bytes, payload);
        assert(self.bytes@ =~= old(self).bytes@ + field_bytes(tag, payload@));
        Ok(())
    }

    /// Take the frame.
    pub fn finish(self) -> (bytes: Vec<u8>)
        ensures
            bytes@ == self@,
    {
        self.bytes
    }
}

/// A frame under construction: a head and the fields behind it.
pub struct FrameWriter {
    bytes: Vec<u8>,
    head: Ghost<Seq<u8>>,
    fields: Ghost<Seq<(u8, Seq<u8>)>>,
}

impl FrameWriter {
    #[verifier::type_invariant]
    spec fn well_formed(self) -> bool {
        self.bytes@ == self.head@ + fields_bytes(self.fields@)
    }

    /// What stands before the fields.
    pub closed spec fn head(&self) -> Seq<u8> {
        self.head@
    }

    /// The fields written so far.
    pub closed spec fn fields(&self) -> Seq<(u8, Seq<u8>)> {
        self.fields@
    }

    /// Start a frame without a head.
    pub fn new() -> (r: FrameWriter)
        ensures
            r.head() == Seq::<u8>::empty(),
            r.fields() == Seq::<(u8, Seq<u8>)>::empty(),
    {
        let bytes: Vec<u8> = Vec::new();
        let ghost fields = Seq::<(u8, Seq<u8>)>::empty();
        assert(bytes@ =~= Seq::<u8>::empty() + fields_bytes(fields));
        FrameWriter { bytes, head: Ghost(Seq::empty()), fields: Ghost(fields) }
    }

    /// Start a frame with its version byte.
    pub fn versioned(version: u8) -> (r: FrameWriter)
        ensures
            r.head() == seq![version],
            r.fields() == Seq::<(u8, Seq<u8>)>::empty(),
    {
        let mut bytes: Vec<u8> = Vec::new();
        bytes.push(version);
        let ghost fields = Seq::<(u8, Seq<u8>)>::empty();
        let ghost head = seq![version];
        assert(bytes@ =~= head + fields_bytes(fields));
        FrameWriter { bytes, head: Ghost(head), fields: Ghost(fields) }
    }

    /// Write one field.
    pub fn field(self, tag: u8, payload: &[u8]) -> (r: FrameWriter)
        requires
            fits(payload@),
        ensures
            r.head() == self.head(),
            r.fields() == self.fields().push((tag, payload@)),
    {
        proof {
            use_type_invariant(&self);
        }
        let FrameWriter { bytes, head, fields } = self;
        let mut out = bytes;
        out.push(tag);
        append_u32(&mut out, payload.len() as u32);
        append_bytes(&mut out, payload);
        let ghost more = fields@.push((tag, payload@));
        proof {
            lemma_fields_push(fields@, tag, payload@);
            assert(out@ =~= head@ + fields_bytes(more));
        }
        FrameWriter { bytes: out, head, fields: Ghost(more) }
    }

    /// Take the frame.
    pub fn finish(self) -> (r: Vec<u8>)
        ensures
            r@ == self.head() + fields_bytes(self.fields()),
    {
        proof {
            use_type_invariant(&self);
        }
        self.bytes
    }
}

} // verus!
