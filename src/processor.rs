//! Per-block decoding and the batch pipeline over all blocks of an envelope.
use vstd::prelude::*;

use crate::decompress::decompression_search;
use crate::envelope::{input_blocks, BlockView, MessagePackExt, StructuralError};
use crate::msgpack::{
    encodable, json_text_value, msgpack_encoding, msgpack_prefix, parse_json_text,
    read_msgpack_prefix, write_msgpack,
};
use crate::profile::{is_profile_of, ProfileSummary};
use crate::recovery::recovered;
use crate::size_hint::size_hint;
use crate::text::{contains_visible_char, has_visible_char, looks_like_json, starts_like_json, utf8_text};
use crate::value::{json_of, promoted, DecodedValue, JsonValue};
use crate::LZ4MessagePackProcessor;
use vstd::utf8::{decode_utf8, valid_utf8};

verus! {

/// The one block tag that the pipeline processes.
pub const SUPPORTED_TAG: u64 = 98;

/// What one block's payload turned out to be.
pub enum BlockOutcome {
    /// The payload decompressed to no bytes at all.
    Empty,
    /// The bytes decoded as one MessagePack document (after shape promotion).
    Decoded(JsonValue),
    /// Only separate values could be recovered from the bytes.
    Recovered(Vec<JsonValue>),
    /// The bytes are UTF-8 text that parsed as JSON.
    JsonText(JsonValue),
    /// The bytes are UTF-8 text.
    RawText(String),
    /// The bytes are neither values nor text.
    Binary(ProfileSummary),
    /// No decompression strategy succeeded.
    DecompressionFailed,
}

/// The result for one block: its re-encoded MessagePack form and what its
/// payload decoded to.
pub struct BlockResult {
    pub msgpack: Vec<u8>,
    pub outcome: BlockOutcome,
}

/// `o` describes bytes that do not decode as one document: recovered
/// values, JSON text, plain text or a byte profile, in that order.
pub open spec fn describes_undecodable(b: Seq<u8>, o: BlockOutcome) -> bool {
    if recovered(b).len() > 0 {
        match o {
            BlockOutcome::Recovered(out) => out@.len() == recovered(b).len() && forall|i: int|
                0 <= i < out@.len() ==> json_of(recovered(b)[i], #[trigger] out@[i]),
            _ => false,
        }
    } else if valid_utf8(b) && has_visible_char(decode_utf8(b)) {
        let t = decode_utf8(b);
        match json_text_value(t) {
            Some(d) if looks_like_json(t) => match o {
                BlockOutcome::JsonText(j) => json_of(d, j),
                _ => false,
            },
            _ => match o {
                BlockOutcome::RawText(s) => s@ == t,
                _ => false,
            },
        }
    } else {
        match o {
            BlockOutcome::Binary(p) => is_profile_of(b, p),
            _ => false,
        }
    }
}

/// `o` describes the decompressed bytes `b`: an empty result, a whole
/// document (after shape promotion), or what `describes_undecodable` says.
pub open spec fn describes(b: Seq<u8>, o: BlockOutcome) -> bool {
    if b.len() == 0 {
        o is Empty
    } else {
        match msgpack_prefix(b) {
            Some((v, _)) => match o {
                BlockOutcome::Decoded(r) => exists|j: JsonValue| json_of(v, j) && promoted(j, r),
                _ => false,
            },
            None => describes_undecodable(b, o),
        }
    }
}

/// `o` is the outcome for a block with these header and payload bytes.
pub open spec fn block_outcome(header: Seq<u8>, payload: Seq<u8>, o: BlockOutcome) -> bool {
    match decompression_search(payload, size_hint(header)) {
        Some((bytes, _)) => describes(bytes, o),
        None => o is DecompressionFailed,
    }
}

/// `v` is the MessagePack value a block is re-encoded as: a two-element
/// array of an extension (tag and header bytes) and the payload as binary.
pub open spec fn reencoded_value(tag: i8, header: Seq<u8>, payload: Seq<u8>, v: DecodedValue) -> bool {
    match v {
        DecodedValue::Array(items) => {
            &&& items@.len() == 2
            &&& items@[0] matches DecodedValue::Ext(t, h) && t == tag && h@ == header
            &&& items@[1] matches DecodedValue::Binary(d) && d@ == payload
        },
        _ => false,
    }
}

/// `r` is the result for a supported block `b`.
pub open spec fn block_result(b: BlockView, r: BlockResult) -> bool {
    &&& exists|v: DecodedValue| reencoded_value(b.0 as i8, b.1, b.2, v) && r.msgpack@
        == msgpack_encoding(v)
    &&& block_outcome(b.1, b.2, r.outcome)
}

/// Position of the first block from `i` on whose tag is not supported.
pub open spec fn first_unsupported(blocks: Seq<BlockView>, i: nat) -> Option<nat>
    decreases blocks.len() - i,
{
    if i >= blocks.len() {
        None
    } else if blocks[i as int].0 != SUPPORTED_TAG {
        Some(i)
    } else {
        first_unsupported(blocks, i + 1)
    }
}

/// `r` is the batch result for `blocks`: the first unsupported tag aborts
/// the whole batch; otherwise one result per block, in order.
pub open spec fn batch_result(blocks: Seq<BlockView>, r: Result<Vec<BlockResult>, StructuralError>) -> bool {
    match first_unsupported(blocks, 0) {
        Some(i) => r == Err::<Vec<BlockResult>, StructuralError>(
            StructuralError::UnsupportedTag(blocks[i as int].0),
        ),
        None => r matches Ok(out) && out@.len() == blocks.len() && forall|k: int|
            0 <= k < blocks.len() ==> block_result(blocks[k], #[trigger] out@[k]),
    }
}

/// `r` is the result of processing an envelope given as JSON text.
pub open spec fn document_result(text: Seq<char>, r: Result<Vec<BlockResult>, StructuralError>) -> bool {
    match input_blocks(text) {
        Ok(blocks) => batch_result(blocks, r),
        Err(e) => r == Err::<Vec<BlockResult>, StructuralError>(e),
    }
}

impl LZ4MessagePackProcessor {
    /// Describes decompressed bytes: as a whole MessagePack document when
    /// they decode as one, else as recovered values, JSON or plain text, or
    /// a byte profile. Empty bytes give an empty result.
    pub fn process_decompressed_data(decompressed: &[u8]) -> (r: BlockOutcome)
        ensures
            describes(decompressed@, r),
    {
        if decompressed.len() == 0 {
            return BlockOutcome::Empty;
        }
        if let Some((v, _)) = read_msgpack_prefix(decompressed) {
            let j = Self::convert_value_to_json(&v);
            let ghost jj = j;
            let promoted_value = Self::promote_record_shape(j);
            assert(json_of(v, jj) && promoted(jj, promoted_value));
            return BlockOutcome::Decoded(promoted_value);
        }
        let partial = Self::parse_partial_messagepack(decompressed);
        if partial.len() > 0 {
            return BlockOutcome::Recovered(partial);
        }
        match utf8_text(decompressed) {
            Some(text) => {
                if contains_visible_char(text.as_str()) {
                    if starts_like_json(text.as_str()) {
                        if let Some(d) = parse_json_text(text.as_str()) {
                            return BlockOutcome::JsonText(Self::convert_value_to_json(&d));
                        }
                    }
                    BlockOutcome::RawText(text)
                } else {
                    BlockOutcome::Binary(Self::summarize_binary_data(decompressed))
                }
            },
            None => BlockOutcome::Binary(Self::summarize_binary_data(decompressed)),
        }
    }

    /// Re-encodes a block as a MessagePack array of an extension (the tag,
    /// taken as a MessagePack extension type `i8`, and the header bytes) and
    /// the payload as binary data. Any tag is accepted.
    pub fn reserialize_to_msgpack(ext: &MessagePackExt) -> (r: Vec<u8>)
        ensures
            exists|v: DecodedValue| reencoded_value(ext.format_tag as i8, ext.header_data@, ext.data@, v)
                && r@ == msgpack_encoding(v),
    {
        let mut items: Vec<DecodedValue> = Vec::new();
        items.push(DecodedValue::Ext(ext.format_tag as i8, copy_bytes(&ext.header_data)));
        items.push(DecodedValue::Binary(copy_bytes(&ext.data)));
        assert(encodable(items@[0]) && encodable(items@[1]));
        let v = DecodedValue::Array(items);
        assert(reencoded_value(ext.format_tag as i8, ext.header_data@, ext.data@, v));
        assert(encodable(v)) by {
            assert forall|i: int| 0 <= i < items@.len() implies encodable(#[trigger] items@[i]) by {
                assert(i == 0 || i == 1);
            }
        }
        write_msgpack(&v)
    }

    /// Processes one supported block: size hint, decompression waterfall,
    /// then a description of the decompressed bytes.
    pub fn process_block(ext: &MessagePackExt) -> (r: BlockResult)
        requires
            ext.format_tag == SUPPORTED_TAG,
        ensures
            block_result(ext.view(), r),
    {
        let hint = Self::get_uncompressed_size(ext.header_data.as_slice());
        let msgpack = Self::reserialize_to_msgpack(ext);
        let outcome = match Self::decompress_data(ext.data.as_slice(), hint) {
            Some((decompressed, _)) => Self::process_decompressed_data(decompressed.as_slice()),
            None => BlockOutcome::DecompressionFailed,
        };
        BlockResult { msgpack, outcome }
    }

    /// Processes blocks in order. A block whose tag is not the supported one
    /// aborts the whole batch with an error naming that tag; failures to
    /// decompress or decode stay local to their block.
    pub fn process_blocks(blocks: &Vec<MessagePackExt>) -> (r: Result<Vec<BlockResult>, StructuralError>)
        ensures
            batch_result(blocks@.map_values(|b: MessagePackExt| b.view()), r),
    {
        let ghost views = blocks@.map_values(|b: MessagePackExt| b.view());
        let mut results: Vec<BlockResult> = Vec::new();
        let mut i: usize = 0;
        while i < blocks.len()
            invariant
                views == blocks@.map_values(|b: MessagePackExt| b.view()),
                i <= blocks@.len(),
                first_unsupported(views, 0) == first_unsupported(views, i as nat),
                results@.len() == i,
                forall|k: int| 0 <= k < i ==> block_result(views[k], #[trigger] results@[k]),
            decreases blocks@.len() - i,
        {
            let b = &blocks[i];
            if b.format_tag != SUPPORTED_TAG {
                return Err(StructuralError::UnsupportedTag(b.format_tag));
            }
            let r = Self::process_block(b);
            results.push(r);
            i = i + 1;
        }
        Ok(results)
    }

    /// Parses an envelope given as JSON text and processes its blocks.
    pub fn process_document(input_json: &str) -> (r: Result<Vec<BlockResult>, StructuralError>)
        ensures
            document_result(input_json@, r),
    {
        let blocks = Self::parse_input(input_json)?;
        Self::process_blocks(&blocks)
    }
}

/// A copy of a byte vector.
fn copy_bytes(b: &Vec<u8>) -> (r: Vec<u8>)
    ensures
        r@ == b@,
{
    let mut out: Vec<u8> = Vec::new();
    let mut i: usize = 0;
    while i < b.len()
        invariant
            i <= b@.len(),
            out@ == b@.subrange(0, i as int),
        decreases b@.len() - i,
    {
        out.push(b[i]);
        i = i + 1;
    }
    out
}

proof fn lemma_first_unsupported_found(blocks: Seq<BlockView>, i: nat, k: nat)
    requires
        i <= k < blocks.len(),
        blocks[k as int].0 != SUPPORTED_TAG,
    ensures
        first_unsupported(blocks, i) matches Some(j) && i <= j <= k && blocks[j as int].0
            != SUPPORTED_TAG && forall|m: int| i <= m < j ==> blocks[m].0 == SUPPORTED_TAG,
    decreases k - i,
{
    if blocks[i as int].0 == SUPPORTED_TAG {
        lemma_first_unsupported_found(blocks, i + 1, k);
    }
}

/// A batch that holds a block with another tag than the supported one
/// fails as a whole, whatever the blocks before it hold; the error names
/// the first such tag.
pub proof fn lemma_unsupported_tag_aborts_batch(
    blocks: Seq<BlockView>,
    r: Result<Vec<BlockResult>, StructuralError>,
    k: int,
)
    requires
        batch_result(blocks, r),
        0 <= k < blocks.len(),
        blocks[k].0 != SUPPORTED_TAG,
    ensures
        exists|j: int|
            0 <= j <= k && blocks[j].0 != SUPPORTED_TAG && (forall|m: int|
                0 <= m < j ==> blocks[m].0 == SUPPORTED_TAG) && r == Err::<
                Vec<BlockResult>,
                StructuralError,
            >(StructuralError::UnsupportedTag(blocks[j].0)),
{
    lemma_first_unsupported_found(blocks, 0, k as nat);
    let j = first_unsupported(blocks, 0)->0;
    assert(blocks[j as int].0 != SUPPORTED_TAG);
}

/// A block whose payload decompresses to bytes that start with a complete
/// MessagePack value `v` is reported as that value's JSON form (after shape
/// promotion).
pub proof fn lemma_decoded_block(
    header: Seq<u8>,
    payload: Seq<u8>,
    bytes: Seq<u8>,
    id: nat,
    v: DecodedValue,
    n: nat,
    o: BlockOutcome,
)
    requires
        decompression_search(payload, size_hint(header)) == Some((bytes, id)),
        bytes.len() > 0,
        msgpack_prefix(bytes) == Some((v, n)),
        block_outcome(header, payload, o),
    ensures
        o matches BlockOutcome::Decoded(r) && exists|j: JsonValue| json_of(v, j) && promoted(j, r),
{
}

} // verus!
