//! Arguments and results as values.
//!
//! A value is a `serde_json::Value`: a string, a number, a boolean, null,
//! or a sequence or a mapping of values. The transport never looks into
//! one. It carries each value as the MessagePack bytes that `rmp_serde`
//! makes of it, and hands the bytes that it received back to `rmp_serde`.
//! What those bytes are, this library does not say: the two functions of
//! `rmp_serde` stand behind names, and the contracts speak of the names.

use crate::error::IpcError;
use crate::framing::payloads;
use vstd::prelude::*;

verus! {

/// `serde_json::Value`, which the library carries and never looks into.
#[verifier::external_type_specification]
#[verifier::external_body]
pub struct ExValue(serde_json::Value);

/// The MessagePack encoding that `rmp_serde::to_vec_named` gives `value`,
/// or `None` where it gives none.
pub uninterp spec fn msgpack_bytes(value: serde_json::Value) -> Option<Seq<u8>>;

/// The value that `rmp_serde::from_slice` reads off `bytes`, or `None`
/// where it reads none.
pub uninterp spec fn msgpack_value(bytes: Seq<u8>) -> Option<serde_json::Value>;

/// Encodes one value.
///
/// Trusted: this is `rmp_serde::to_vec_named` on a `serde_json::Value`. It
/// writes into a vector of its own and takes nothing else in, so its
/// result depends on the value alone; the contract gives that result its
/// name and says no more of it. An error comes back as its text.
#[verifier::external_body]
fn value_to_bytes(value: &serde_json::Value) -> (r: Result<Vec<u8>, String>)
    ensures
        r is Ok <==> msgpack_bytes(*value) is Some,
        r matches Ok(bytes) ==> msgpack_bytes(*value) == Some(bytes@),
{
    rmp_serde::to_vec_named(value).map_err(|e| e.to_string())
}

/// Decodes one value.
///
/// Trusted: this is `rmp_serde::from_slice` to a `serde_json::Value`. It
/// reads the bytes and nothing else, so its result depends on the bytes
/// alone; the contract gives that result its name and says no more of it.
/// An error comes back as its text.
#[verifier::external_body]
fn value_from_bytes(bytes: &[u8]) -> (r: Result<serde_json::Value, String>)
    ensures
        r is Ok <==> msgpack_value(bytes@) is Some,
        r matches Ok(value) ==> msgpack_value(bytes@) == Some(value),
{
    rmp_serde::from_slice(bytes).map_err(|e| e.to_string())
}

/// Every one of `values` has an encoding.
pub open spec fn all_encode(values: Seq<serde_json::Value>) -> bool {
    forall|i: int| 0 <= i < values.len() ==> (#[trigger] msgpack_bytes(values[i])) is Some
}

/// The encodings of `values`, in their order.
pub open spec fn encoded(values: Seq<serde_json::Value>) -> Seq<Seq<u8>> {
    Seq::new(values.len(), |i: int| msgpack_bytes(values[i])->0)
}

/// Every one of `items` is the encoding of a value.
pub open spec fn all_decode(items: Seq<Seq<u8>>) -> bool {
    forall|i: int| 0 <= i < items.len() ==> (#[trigger] msgpack_value(items[i])) is Some
}

/// The values that `items` encode, in their order.
pub open spec fn decoded(items: Seq<Seq<u8>>) -> Seq<serde_json::Value> {
    Seq::new(items.len(), |i: int| msgpack_value(items[i])->0)
}

/// Encodes a value; a value that has no encoding is a serialization
/// error.
pub fn encode_value(value: &serde_json::Value) -> (r: Result<Vec<u8>, IpcError>)
    ensures
        match r {
            Ok(bytes) => msgpack_bytes(*value) == Some(bytes@),
            Err(e) => msgpack_bytes(*value) is None && e is Serialization,
        },
{
    match value_to_bytes(value) {
        Ok(bytes) => Ok(bytes),
        Err(text) => Err(IpcError::Serialization(text)),
    }
}

/// Decodes a value; bytes that encode no value are a deserialization
/// error.
pub fn decode_value(bytes: &[u8]) -> (r: Result<serde_json::Value, IpcError>)
    ensures
        match r {
            Ok(value) => msgpack_value(bytes@) == Some(value),
            Err(e) => msgpack_value(bytes@) is None && e is Deserialization,
        },
{
    match value_from_bytes(bytes) {
        Ok(value) => Ok(value),
        Err(text) => Err(IpcError::Deserialization(text)),
    }
}

/// Encodes each of `values`; fails at the first that has no encoding.
pub fn encode_values(values: &Vec<serde_json::Value>) -> (r: Result<Vec<Vec<u8>>, IpcError>)
    ensures
        match r {
            Ok(items) => all_encode(values@) && payloads(items@) == encoded(values@),
            Err(e) => !all_encode(values@) && e is Serialization,
        },
{
    let mut items: Vec<Vec<u8>> = Vec::new();
    let mut i: usize = 0;
    while i < values.len()
        invariant
            i <= values.len(),
            items@.len() == i,
            forall|j: int|
                0 <= j < i ==> msgpack_bytes(#[trigger] values@[j]) == Some(items@[j]@),
        decreases values.len() - i,
    {
        match encode_value(&values[i]) {
            Ok(bytes) => {
                items.push(bytes);
            },
            Err(e) => {
                assert(msgpack_bytes(values@[i as int]) is None);
                return Err(e);
            },
        }
        i += 1;
    }
    proof {
        assert forall|j: int| 0 <= j < values@.len() implies (#[trigger] msgpack_bytes(
            values@[j],
        )) is Some by {
            assert(msgpack_bytes(values@[j]) == Some(items@[j]@));
        }
        assert forall|j: int| 0 <= j < items@.len() implies payloads(items@)[j] == encoded(
            values@,
        )[j] by {
            assert(msgpack_bytes(values@[j]) == Some(items@[j]@));
        }
        assert(payloads(items@) =~= encoded(values@));
    }
    Ok(items)
}

/// Decodes each of `items`; fails at the first that encodes no value.
pub fn decode_values(items: &Vec<Vec<u8>>) -> (r: Result<Vec<serde_json::Value>, IpcError>)
    ensures
        match r {
            Ok(values) => all_decode(payloads(items@)) && values@ == decoded(payloads(items@)),
            Err(e) => !all_decode(payloads(items@)) && e is Deserialization,
        },
{
    let mut values: Vec<serde_json::Value> = Vec::new();
    let mut i: usize = 0;
    while i < items.len()
        invariant
            i <= items.len(),
            values@.len() == i,
            forall|j: int|
                0 <= j < i ==> msgpack_value(#[trigger] payloads(items@)[j]) == Some(values@[j]),
        decreases items.len() - i,
    {
        match decode_value(items[i].as_slice()) {
            Ok(value) => {
                values.push(value);
            },
            Err(e) => {
                assert(msgpack_value(payloads(items@)[i as int]) is None);
                return Err(e);
            },
        }
        i += 1;
    }
    proof {
        let all = payloads(items@);
        assert forall|j: int| 0 <= j < all.len() implies (#[trigger] msgpack_value(
            all[j],
        )) is Some by {
            assert(msgpack_value(all[j]) == Some(values@[j]));
        }
        assert forall|j: int| 0 <= j < values@.len() implies values@[j] == decoded(all)[j] by {
            assert(msgpack_value(all[j]) == Some(values@[j]));
        }
        assert(values@ =~= decoded(all));
    }
    Ok(values)
}

} // verus!
