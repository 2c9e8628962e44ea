//! Conversions between MessagePack bytes and JSON text, value by value.
//!
//! These work on any document; the typed route documents of the
//! application are converted by its serde models.
use vstd::prelude::*;

use crate::msgpack::{
    encodable, json_text_of, json_text_value, msgpack_encoding, msgpack_prefix, parse_json_text,
    read_msgpack_prefix, render_json_text, write_msgpack,
};
use crate::decompress::{lz4_block_compressed, lz4_block_decoded, lz4_compress, output_bound};
use crate::processor::{block_outcome, BlockOutcome};
use crate::size_hint::{is_known_sample, lemma_size_header_round_trip};
use crate::value::{json_of, promoted, JsonValue};
use crate::envelope::{BlockView, MessagePackExt};
use crate::processor::SUPPORTED_TAG;
use crate::size_hint::{is_size_header, size_header};
use crate::value::DecodedValue;

verus! {

/// Why a conversion between MessagePack and JSON failed.
#[derive(Clone, Copy, Debug, PartialEq, Eq, Structural)]
pub enum ConversionError {
    /// The bytes do not start with a MessagePack value.
    InvalidMessagePack,
    /// The text is not valid JSON.
    InvalidJson,
    /// The value holds a string that is not UTF-8.
    InvalidString,
    /// The value has no JSON form (a map key that is not a string).
    NotRepresentable,
    /// The encoded value is too long to compress.
    TooLong,
}

/// Whether a value can be re-encoded (holds no invalid UTF-8 string).
pub fn check_encodable(v: &DecodedValue) -> (b: bool)
    ensures
        b == encodable(*v),
    decreases *v,
{
    match v {
        DecodedValue::InvalidStr(_) => false,
        DecodedValue::Array(items) => {
            let mut i: usize = 0;
            while i < items.len()
                invariant
                    *v == DecodedValue::Array(*items),
                    i <= items@.len(),
                    forall|k: int| 0 <= k < i ==> encodable(#[trigger] items@[k]),
                decreases items@.len() - i,
            {
                proof {
                    assert(decreases_to!(*v => (*v)->Array_0));
                }
                if !check_encodable(&items[i]) {
                    return false;
                }
                i = i + 1;
            }
            true
        },
        DecodedValue::Dictionary(entries) => {
            let mut i: usize = 0;
            while i < entries.len()
                invariant
                    *v == DecodedValue::Dictionary(*entries),
                    i <= entries@.len(),
                    forall|k: int| 0 <= k < i ==> encodable((#[trigger] entries@[k]).0) && encodable(
                        entries@[k].1,
                    ),
                decreases entries@.len() - i,
            {
                proof {
                    assert(decreases_to!(*v => (*v)->Dictionary_0));
                }
                if !check_encodable(&entries[i].0) || !check_encodable(&entries[i].1) {
                    return false;
                }
                i = i + 1;
            }
            true
        },
        _ => true,
    }
}

/// Converts the MessagePack value at the start of `data` to JSON text,
/// whatever its shape.
pub fn msgpack_to_json(data: &[u8]) -> (r: Result<String, ConversionError>)
    ensures
        match msgpack_prefix(data@) {
            None => r == Err::<String, ConversionError>(ConversionError::InvalidMessagePack),
            Some((v, _)) => if !encodable(v) {
                r == Err::<String, ConversionError>(ConversionError::InvalidString)
            } else {
                match json_text_of(v) {
                    Some(t) => r matches Ok(s) && s@ == t,
                    None => r == Err::<String, ConversionError>(ConversionError::NotRepresentable),
                }
            },
        },
{
    let (v, _) = match read_msgpack_prefix(data) {
        Some(x) => x,
        None => return Err(ConversionError::InvalidMessagePack),
    };
    if !check_encodable(&v) {
        return Err(ConversionError::InvalidString);
    }
    match render_json_text(&v) {
        Some(t) => Ok(t),
        None => Err(ConversionError::NotRepresentable),
    }
}

/// Converts JSON text to the MessagePack encoding of the same value,
/// whatever its shape; only text that is not JSON is refused.
pub fn json_to_msgpack(json_str: &str) -> (r: Result<Vec<u8>, ConversionError>)
    ensures
        match json_text_value(json_str@) {
            None => r == Err::<Vec<u8>, ConversionError>(ConversionError::InvalidJson),
            Some(v) => r matches Ok(b) && b@ == msgpack_encoding(v),
        },
{
    let v = match parse_json_text(json_str) {
        Some(v) => v,
        None => return Err(ConversionError::InvalidJson),
    };
    Ok(write_msgpack(&v))
}

/// `b` is the block that carries the MessagePack bytes `m`: the supported
/// tag, a header announcing their length, and their LZ4 compression.
pub open spec fn carries(m: Seq<u8>, b: BlockView) -> bool {
    &&& b.0 == SUPPORTED_TAG
    &&& is_size_header(m.len(), b.1)
    &&& lz4_block_compressed(m) == Some(b.2)
}

/// Encodes JSON text as one envelope block: the value's MessagePack bytes,
/// LZ4-compressed, behind a header that announces their length.
pub fn encode_block(json_str: &str) -> (r: Result<MessagePackExt, ConversionError>)
    ensures
        match json_text_value(json_str@) {
            None => r == Err::<MessagePackExt, ConversionError>(ConversionError::InvalidJson),
            Some(v) => if lz4_block_compressed(msgpack_encoding(v)) is None {
                r == Err::<MessagePackExt, ConversionError>(ConversionError::TooLong)
            } else {
                r matches Ok(b) && carries(msgpack_encoding(v), b.view())
            },
        },
{
    let v = match parse_json_text(json_str) {
        Some(v) => v,
        None => return Err(ConversionError::InvalidJson),
    };
    let bytes = write_msgpack(&v);
    let compressed = match lz4_compress(bytes.as_slice()) {
        Some(c) => c,
        None => return Err(ConversionError::TooLong),
    };
    let header = size_header(bytes.len());
    Ok(MessagePackExt { format_tag: SUPPORTED_TAG, header_data: header, data: compressed })
}

/// Round trip through an encoded block: when LZ4 gives back the
/// MessagePack bytes `m` that a block carries (decoding with the first
/// strategy's bound) and `m` starts with the value `v`, processing the
/// block reports `v`'s JSON form (after shape promotion). The two
/// conditions are properties of the outside codecs; the header's size hint
/// is shown to be exact unless it matches the known-sample pattern.
pub proof fn lemma_encoded_block_round_trip(
    m: Seq<u8>,
    b: BlockView,
    v: DecodedValue,
    n: nat,
    o: BlockOutcome,
)
    requires
        carries(m, b),
        0 < m.len() < 0x100000000,
        !is_known_sample(b.1),
        b.2.len() > 0,
        lz4_block_decoded(b.2, Some(output_bound(m.len(), b.2.len()) as i32)) == Some(m),
        msgpack_prefix(m) == Some((v, n)),
        block_outcome(b.1, b.2, o),
    ensures
        o matches BlockOutcome::Decoded(r) && exists|j: JsonValue| json_of(v, j) && promoted(j, r),
{
    lemma_size_header_round_trip(m.len(), b.1);
}

} // verus!
