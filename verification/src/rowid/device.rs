//! The tag that tells the slots of one device from those of another.

use crate::bytes::{append_bytes, append_u32, be32, from_be32, read_u32};
use crate::digest::{sha256, sha256_digest};
use crate::error::{Error, Result};
use vstd::prelude::*;
use vstd::string::*;
use vstd::utf8::*;

verus! {

/// What a device's tag is derived from, before its identity. A zero byte ends
/// the text.
pub const DEVICE_TAG_DOMAIN: &'static str = "multilite:rowid-device-tag:v1";

/// How many numbers a slot's random part can be.
pub const RANDOM_SLOTS: u64 = 134_217_728;

/// The bytes that a tag is derived from.
pub open spec fn tag_input(device: Seq<u8>, counter: nat) -> Seq<u8> {
    encode_utf8(DEVICE_TAG_DOMAIN@) + seq![0u8] + device + be32(counter)
}

/// The tag that a counter gives.
pub open spec fn tag_at(device: Seq<u8>, counter: nat) -> nat {
    let digest = sha256_digest(tag_input(device, counter));
    (digest[0] * 256 + digest[1]) as nat
}

/// The first tag from a counter on that is not zero.
pub open spec fn first_tag(device: Seq<u8>, counter: nat) -> Option<nat>
    decreases 4294967296 - counter,
{
    if counter >= 4294967296 {
        None
    } else if tag_at(device, counter) != 0 {
        Some(tag_at(device, counter))
    } else {
        first_tag(device, counter + 1)
    }
}

/// The tag of a device: the first two bytes of a digest of its identity, taken
/// again with the next counter while they are zero. There is none only where
/// every counter gives zero.
pub fn device_tag(device: [u8; 16]) -> (r: Option<u16>)
    ensures
        match r {
            Some(tag) => first_tag(device@, 0) == Some(tag as nat) && tag != 0,
            None => first_tag(device@, 0) is None,
        },
{
    let mut counter: u32 = 0;
    loop
        invariant
            first_tag(device@, 0) == first_tag(device@, counter as nat),
        decreases u32::MAX - counter,
    {
        let mut input: Vec<u8> = Vec::new();
        append_bytes(&mut input, DEVICE_TAG_DOMAIN.as_bytes());
        input.push(0);
        append_bytes(&mut input, &device);
        append_u32(&mut input, counter);
        assert(input@ =~= tag_input(device@, counter as nat));
        let digest = sha256(input.as_slice());
        let tag: u16 = digest[0] as u16 * 256 + digest[1] as u16;
        assert(tag == tag_at(device@, counter as nat));
        if tag != 0 {
            return Some(tag);
        }
        if counter == u32::MAX {
            assert(first_tag(device@, 4294967296) is None);
            return None;
        }
        counter += 1;
    }
}

/// `getrandom::fill` over four bytes. Nothing is said of the bytes, which come
/// from the system's random source, nor of when it fails; the message of a
/// failure is the outside error's own.
#[verifier::external_body]
fn fill_random() -> (r: std::result::Result<[u8; 4], String>) {
    let mut bytes = [0u8; 4];
    match getrandom::fill(&mut bytes) {
        Ok(()) => Ok(bytes),
        Err(error) => Err(error.to_string()),
    }
}

/// The random part of a slot that four random bytes give.
pub fn slot_suffix(bytes: [u8; 4]) -> (r: u32)
    ensures
        r == from_be32(bytes@) % RANDOM_SLOTS as nat,
{
    let n: u32 = read_u32(&bytes);
    n % 134_217_728
}

/// Draw the random part of a slot.
pub fn random_suffix() -> (r: Result<u32>)
    ensures
        match r {
            Ok(suffix) => suffix < RANDOM_SLOTS,
            Err(error) => error is Entropy,
        },
{
    match fill_random() {
        Ok(bytes) => Ok(slot_suffix(bytes)),
        Err(text) => Err(Error::Entropy(text)),
    }
}

} // verus!
