//! Splitting an envelope document into header/payload blocks.
use vstd::prelude::*;
use vstd::string::StringExecFns;

use crate::msgpack::{json_text_value, parse_json_text};
use crate::value::DecodedValue;
use crate::LZ4MessagePackProcessor;

verus! {

/// One block of an envelope: its format tag, header bytes and payload.
pub struct MessagePackExt {
    pub format_tag: u64,
    pub header_data: Vec<u8>,
    pub data: Vec<u8>,
}

/// Block contents as plain values: tag, header bytes, payload bytes.
pub type BlockView = (u64, Seq<u8>, Seq<u8>);

impl MessagePackExt {
    pub open spec fn view(&self) -> BlockView {
        (self.format_tag, self.header_data@, self.data@)
    }
}

/// Why a document or a batch of blocks was rejected as a whole.
#[derive(Clone, Copy, Debug, PartialEq, Eq, Structural)]
pub enum StructuralError {
    /// The document is not valid JSON.
    InvalidDocument,
    /// The document is not an array.
    NotAnArray,
    /// The array has fewer than two elements.
    TooFewElements,
    /// No pair of elements forms a block.
    NoValidBlocks,
    /// A block carries a tag other than the supported one.
    UnsupportedTag(u64),
    /// Text taken for hexadecimal data holds no pair of digits.
    InvalidHex,
}

/// The value of the last entry under a string key equal to `key`.
pub open spec fn lookup(entries: Seq<(DecodedValue, DecodedValue)>, key: Seq<char>) -> Option<
    DecodedValue,
>
    decreases entries.len(),
{
    if entries.len() == 0 {
        None
    } else {
        let last = entries[entries.len() - 1];
        if last.0 matches DecodedValue::Str(k) && k@ == key {
            Some(last.1)
        } else {
            lookup(entries.subrange(0, entries.len() - 1), key)
        }
    }
}

/// The field `key` of an object; nothing for other values.
pub open spec fn field(v: DecodedValue, key: Seq<char>) -> Option<DecodedValue> {
    match v {
        DecodedValue::Dictionary(entries) => lookup(entries@, key),
        _ => None,
    }
}

/// An array of non-negative integers read as bytes (each taken modulo 256).
pub open spec fn byte_array(v: Option<DecodedValue>) -> Option<Seq<u8>> {
    match v {
        Some(DecodedValue::Array(items)) => if forall|i: int|
            0 <= i < items@.len() ==> #[trigger] items@[i] is PosInt {
            Some(Seq::new(items@.len(), |i: int| items@[i]->PosInt_0 as u8))
        } else {
            None
        },
        _ => None,
    }
}

/// The block formed by a header descriptor and a payload descriptor: the
/// header needs an integer `type` and a `buffer.data` byte array, the
/// payload a `data` byte array.
pub open spec fn pair_block(header: DecodedValue, payload: DecodedValue) -> Option<BlockView> {
    match (field(header, "type"@), field(header, "buffer"@)) {
        (Some(DecodedValue::PosInt(tag)), Some(buffer)) => match (
            byte_array(field(buffer, "data"@)),
            byte_array(field(payload, "data"@)),
        ) {
            (Some(h), Some(d)) => Some((tag, h, d)),
            _ => None,
        },
        _ => None,
    }
}

/// Blocks found scanning from position `i`: a matching pair is taken and
/// skipped, otherwise one position is skipped.
pub open spec fn scan_blocks(items: Seq<DecodedValue>, i: nat) -> Seq<BlockView>
    decreases items.len() - i,
{
    if i + 1 >= items.len() {
        Seq::empty()
    } else {
        match pair_block(items[i as int], items[i + 1 as int]) {
            Some(b) => seq![b] + scan_blocks(items, i + 2),
            None => scan_blocks(items, i + 1),
        }
    }
}

/// The blocks of an envelope document, or why there are none.
pub open spec fn envelope_blocks(doc: DecodedValue) -> Result<Seq<BlockView>, StructuralError> {
    match doc {
        DecodedValue::Array(items) => if items@.len() < 2 {
            Err(StructuralError::TooFewElements)
        } else if scan_blocks(items@, 0).len() == 0 {
            Err(StructuralError::NoValidBlocks)
        } else {
            Ok(scan_blocks(items@, 0))
        },
        _ => Err(StructuralError::NotAnArray),
    }
}

/// The blocks of an envelope given as JSON text.
pub open spec fn input_blocks(text: Seq<char>) -> Result<Seq<BlockView>, StructuralError> {
    match json_text_value(text) {
        Some(doc) => envelope_blocks(doc),
        None => Err(StructuralError::InvalidDocument),
    }
}

/// Finds the field `key` of an object.
fn get_field<'a>(v: &'a DecodedValue, key: &str) -> (r: Option<&'a DecodedValue>)
    ensures
        r matches Some(x) ==> field(*v, key@) == Some(*x),
        r is None ==> field(*v, key@) is None,
{
    match v {
        DecodedValue::Dictionary(entries) => {
            let wanted = String::from_str(key);
            let mut i: usize = entries.len();
            assert(entries@.subrange(0, i as int) == entries@);
            while i > 0
                invariant
                    *v == DecodedValue::Dictionary(*entries),
                    wanted@ == key@,
                    i <= entries@.len(),
                    lookup(entries@, key@) == lookup(entries@.subrange(0, i as int), key@),
                decreases i,
            {
                let ghost prefix = entries@.subrange(0, i as int);
                assert(prefix.subrange(0, i - 1) == entries@.subrange(0, i - 1));
                if let DecodedValue::Str(k) = &entries[i - 1].0 {
                    if *k == wanted {
                        return Some(&entries[i - 1].1);
                    }
                }
                i = i - 1;
            }
            None
        },
        _ => None,
    }
}

/// The value behind an optional reference.
pub open spec fn deref_opt(v: Option<&DecodedValue>) -> Option<DecodedValue> {
    match v {
        Some(x) => Some(*x),
        None => None,
    }
}

/// The views of a list of blocks.
pub open spec fn blocks_view(bs: Seq<MessagePackExt>) -> Seq<BlockView> {
    bs.map_values(|b: MessagePackExt| b.view())
}

/// The executable result `r` agrees with the specified result `s`.
pub open spec fn agrees(
    r: Result<Vec<MessagePackExt>, StructuralError>,
    s: Result<Seq<BlockView>, StructuralError>,
) -> bool {
    match r {
        Ok(bs) => s == Ok::<Seq<BlockView>, StructuralError>(blocks_view(bs@)),
        Err(e) => s == Err::<Seq<BlockView>, StructuralError>(e),
    }
}

impl LZ4MessagePackProcessor {
    /// Reads an array of non-negative integers as bytes.
    pub fn extract_byte_array(v: Option<&DecodedValue>) -> (r: Option<Vec<u8>>)
        ensures
            r matches Some(b) ==> byte_array(deref_opt(v)) == Some(b@),
            r is None ==> byte_array(deref_opt(v)) is None,
    {
        match v {
            Some(DecodedValue::Array(items)) => {
                let mut out: Vec<u8> = Vec::new();
                let mut i: usize = 0;
                while i < items.len()
                    invariant
                        deref_opt(v) == Some(DecodedValue::Array(*items)),
                        i <= items@.len(),
                        out@.len() == i,
                        forall|k: int| 0 <= k < i ==> #[trigger] items@[k] is PosInt && out@[k]
                            == items@[k]->PosInt_0 as u8,
                    decreases items@.len() - i,
                {
                    match &items[i] {
                        DecodedValue::PosInt(n) => out.push(*n as u8),
                        _ => return None,
                    }
                    i = i + 1;
                }
                assert(out@ == Seq::new(items@.len(), |k: int| items@[k]->PosInt_0 as u8));
                Some(out)
            },
            _ => None,
        }
    }

    /// Splits an envelope document into blocks: consecutive pairs of a
    /// header descriptor and a payload descriptor, skipping one position
    /// wherever a pair does not match.
    pub fn parse_envelope(doc: &DecodedValue) -> (r: Result<Vec<MessagePackExt>, StructuralError>)
        ensures
            agrees(r, envelope_blocks(*doc)),
    {
        let items = match doc {
            DecodedValue::Array(items) => items,
            _ => return Err(StructuralError::NotAnArray),
        };
        let len = items.len();
        if len < 2 {
            return Err(StructuralError::TooFewElements);
        }
        let mut out: Vec<MessagePackExt> = Vec::new();
        let mut i: usize = 0;
        while i < len - 1
            invariant
                *doc == DecodedValue::Array(*items),
                len == items@.len(),
                len >= 2,
                i <= len,
                blocks_view(out@) + scan_blocks(items@, i as nat) == scan_blocks(items@, 0),
            decreases len - i,
        {
            let header = &items[i];
            let payload = &items[i + 1];
            let mut block: Option<MessagePackExt> = None;
            if let Some(DecodedValue::PosInt(tag)) = get_field(header, "type") {
                if let Some(buffer) = get_field(header, "buffer") {
                    if let Some(h) = Self::extract_byte_array(get_field(buffer, "data")) {
                        if let Some(d) = Self::extract_byte_array(get_field(payload, "data")) {
                            block = Some(MessagePackExt { format_tag: *tag, header_data: h, data: d });
                        }
                    }
                }
            }
            let ghost before = out@;
            match block {
                Some(b) => {
                    assert(pair_block(items@[i as int], items@[i + 1]) == Some(b.view()));
                    out.push(b);
                    assert(blocks_view(out@) == blocks_view(before).push(b.view()));
                    assert(blocks_view(out@) + scan_blocks(items@, (i + 2) as nat) == blocks_view(before) + scan_blocks(items@, i as nat));
                    i = i + 2;
                },
                None => {
                    assert(pair_block(items@[i as int], items@[i + 1]) is None);
                    i = i + 1;
                },
            }
        }
        assert(blocks_view(out@) + Seq::<BlockView>::empty() == blocks_view(out@));
        if out.len() == 0 {
            return Err(StructuralError::NoValidBlocks);
        }
        Ok(out)
    }

    /// Parses an envelope given as JSON text into its blocks.
    pub fn parse_input(input_json: &str) -> (r: Result<Vec<MessagePackExt>, StructuralError>)
        ensures
            agrees(r, input_blocks(input_json@)),
    {
        match parse_json_text(input_json) {
            Some(doc) => Self::parse_envelope(&doc),
            None => Err(StructuralError::InvalidDocument),
        }
    }
}

} // verus!
