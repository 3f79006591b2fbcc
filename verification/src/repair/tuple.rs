//! Lossless frames of value tuples.

use crate::bytes::{
    fields_bytes, fields_fit, fits, fold_fields, lemma_fit_concat, lemma_fold_list, lemma_run_fold,
    run_fields, FrameWriter, Reader,
};
use crate::codec::{grown, list_outcome, views};
use crate::value::{value_decoded, value_frame, value_roundtrip, StoredValue, ValueView};
use vstd::prelude::*;

verus! {

/// Version of the frame.
pub const TUPLE_VERSION: u8 = 1;

/// Marks a value of a tuple.
pub const TAG_VALUE: u8 = 1;

/// Why a tuple's frame is refused.
#[derive(Clone, Copy, Debug, PartialEq, Eq, Structural)]
pub enum RepairCodecError {
    UnknownVersion,
    Truncated,
    InvalidValue,
}

/// The fields of a tuple's frame.
pub open spec fn tuple_fields(values: Seq<ValueView>) -> Seq<(u8, Seq<u8>)> {
    Seq::new(values.len(), |i: int| (TAG_VALUE, value_frame(values[i])))
}

/// The frame of a tuple.
pub open spec fn tuple_frame(values: Seq<ValueView>) -> Seq<u8> {
    seq![TUPLE_VERSION] + fields_bytes(tuple_fields(values))
}

/// Whether every value of a tuple has a frame whose length a `u32` holds.
pub open spec fn tuple_fits(values: Seq<ValueView>) -> bool {
    forall|i: int| 0 <= i < values.len() ==> fits(value_frame(#[trigger] values[i]))
}

/// What reading a value gives.
pub open spec fn tuple_value(payload: Seq<u8>) -> Result<ValueView, RepairCodecError> {
    match value_decoded(payload) {
        Ok(value) => Ok(value),
        Err(_) => Err(RepairCodecError::InvalidValue),
    }
}

/// What one field adds.
pub open spec fn tuple_steps() -> spec_fn(Seq<ValueView>, u8, Seq<u8>) -> Result<
    Seq<ValueView>,
    RepairCodecError,
> {
    |values: Seq<ValueView>, tag: u8, payload: Seq<u8>|
        if tag == TAG_VALUE {
            grown(values, tuple_value(payload))
        } else {
            Ok(values)
        }
}

/// What decoding a tuple's frame gives.
pub open spec fn tuple_decoded(b: Seq<u8>) -> Result<Seq<ValueView>, RepairCodecError> {
    if b.len() == 0 || b[0] != TUPLE_VERSION {
        Err(RepairCodecError::UnknownVersion)
    } else {
        run_fields(
            Seq::<ValueView>::empty(),
            b.subrange(1, b.len() as int),
            tuple_steps(),
            RepairCodecError::Truncated,
        )
    }
}

/// The frame of a tuple, unless a value is too long for one.
pub fn pack_tuple(values: &[StoredValue]) -> (r: Option<Vec<u8>>)
    ensures
        match r {
            Some(frame) => tuple_fits(views(values@)) && frame@ == tuple_frame(views(values@)),
            None => !tuple_fits(views(values@)),
        },
{
    let ghost all = views(values@);
    let ghost list = tuple_fields(all);
    let mut w = FrameWriter::versioned(TUPLE_VERSION);
    let mut i: usize = 0;
    assert(w.fields() =~= list.subrange(0, 0));
    while i < values.len()
        invariant
            i <= values@.len(),
            all == views(values@),
            list == tuple_fields(all),
            w.head() == seq![TUPLE_VERSION],
            w.fields() == list.subrange(0, i as int),
            forall|j: int| 0 <= j < i ==> fits(value_frame(#[trigger] all[j])),
        decreases values.len() - i,
    {
        let payload = values[i].encode();
        assert(all[i as int] == values@[i as int]@);
        if payload.len() > 4294967295 {
            return None;
        }
        w = w.field(TAG_VALUE, payload.as_slice());
        assert(w.fields() =~= list.subrange(0, i as int + 1));
        i += 1;
    }
    assert(list.subrange(0, i as int) =~= list);
    Some(w.finish())
}

/// Read a tuple's frame.
pub fn decode_tuple(frame: &[u8]) -> (r: Result<Vec<StoredValue>, RepairCodecError>)
    ensures
        list_outcome(r) == tuple_decoded(frame@),
{
    let mut reader = Reader::new(frame);
    if reader.u8() != Some(TUPLE_VERSION) {
        return Err(RepairCodecError::UnknownVersion);
    }
    let mut values: Vec<StoredValue> = Vec::new();
    assert(views(values@) =~= Seq::<ValueView>::empty());
    while !reader.is_empty()
        invariant
            tuple_decoded(frame@) == run_fields(
                views(values@),
                reader.remaining(),
                tuple_steps(),
                RepairCodecError::Truncated,
            ),
        decreases reader.remaining().len(),
    {
        let (tag, payload) = match reader.field() {
            Ok(Some(field)) => field,
            _ => {
                return Err(RepairCodecError::Truncated);
            },
        };
        let ghost next = tuple_steps()(views(values@), tag, payload@);
        if tag == TAG_VALUE {
            match StoredValue::decode(payload) {
                Err(_) => {
                    return Err(RepairCodecError::InvalidValue);
                },
                Ok(value) => {
                    let ghost before = views(values@);
                    values.push(value);
                    assert(views(values@) =~= before.push(value@));
                },
            }
        }
        assert(next == Ok::<Seq<ValueView>, RepairCodecError>(views(values@)));
    }
    Ok(values)
}

/// A tuple is read back from its frame.
pub proof fn tuple_roundtrip(values: Seq<ValueView>)
    requires
        tuple_fits(values),
    ensures
        tuple_decoded(tuple_frame(values)) == Ok::<Seq<ValueView>, RepairCodecError>(values),
{
    let none = Seq::<(u8, Seq<u8>)>::empty();
    let fields = tuple_fields(values);
    let step = tuple_steps();
    let start = Seq::<ValueView>::empty();
    let states = |i: int| values.subrange(0, i);
    assert(fields_fit(none));
    assert forall|i: int| 0 <= i < fields.len() implies #[trigger] step(
        states(i),
        fields[i].0,
        fields[i].1,
    ) == Ok::<Seq<ValueView>, RepairCodecError>(states(i + 1)) by {
        value_roundtrip(values[i]);
        assert(values.subrange(0, i).push(values[i]) =~= values.subrange(0, i + 1));
    }
    assert(states(0) =~= start);
    assert(fold_fields(start, none, step) == Ok::<Seq<ValueView>, RepairCodecError>(start));
    lemma_fold_list(start, none, fields, states, step);
    assert(states(fields.len() as int) =~= values);
    assert forall|i: int| 0 <= i < fields.len() implies fits((#[trigger] fields[i]).1) by {
        assert(fits(value_frame(values[i])));
    }
    lemma_fit_concat(none, fields);
    assert(none + fields =~= fields);
    lemma_run_fold(start, fields, step, RepairCodecError::Truncated);
    let b = tuple_frame(values);
    assert(b.subrange(1, b.len() as int) =~= fields_bytes(fields));
}

} // verus!
