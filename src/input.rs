//! Recognising the kind of input document and turning it into blocks.
use vstd::prelude::*;

use crate::envelope::{field, input_blocks, BlockView, MessagePackExt, StructuralError};
use crate::msgpack::{json_text_value, msgpack_encoding, parse_json_text, write_msgpack};
use crate::processor::SUPPORTED_TAG;
use crate::size_hint::MARKER_U8;
use crate::value::DecodedValue;
use crate::LZ4MessagePackProcessor;
use vstd::string::{StringExecFns, StringSliceAdditionalSpecFns};

verus! {

/// What an input document appears to hold.
#[derive(Clone, Copy, Debug, PartialEq, Eq, Structural)]
pub enum InputFormat {
    /// An envelope of header/payload blocks.
    BlockArray,
    /// A JSON array that is not an envelope.
    JsonArray,
    /// A JSON object.
    JsonObject,
    /// Text made mostly of hexadecimal digits.
    HexData,
    /// Text that starts like a raw MessagePack value.
    MessagePack,
}

/// Some element of `items` has the field `key`.
pub open spec fn some_has_field(items: Seq<DecodedValue>, key: Seq<char>) -> bool {
    exists|i: int| 0 <= i < items.len() && field(#[trigger] items[i], key) is Some
}

/// An ASCII hexadecimal digit.
pub open spec fn is_hex_digit(b: u8) -> bool {
    (48 <= b <= 57) || (65 <= b <= 70) || (97 <= b <= 102)
}

/// The hexadecimal digits of `s`, in order. They are ASCII, so they are the
/// digit bytes of the text's UTF-8 encoding.
pub open spec fn hex_digits(s: Seq<u8>) -> Seq<u8>
    decreases s.len(),
{
    if s.len() == 0 {
        Seq::empty()
    } else if is_hex_digit(s.last()) {
        hex_digits(s.drop_last()).push(s.last())
    } else {
        hex_digits(s.drop_last())
    }
}

/// The value of a hexadecimal digit.
pub open spec fn hex_value(b: u8) -> nat {
    if 48 <= b <= 57 {
        (b - 48) as nat
    } else if 65 <= b <= 70 {
        (b - 55) as nat
    } else {
        (b - 87) as nat
    }
}

/// The bytes written by consecutive pairs of digits; a last unpaired digit
/// is ignored.
pub open spec fn hex_bytes(d: Seq<u8>) -> Seq<u8> {
    Seq::new(d.len() / 2, |i: int| (hex_value(d[2 * i]) * 16 + hex_value(d[2 * i + 1])) as u8)
}

/// A first byte that starts a nil, boolean, small array or small map.
pub open spec fn is_messagepack_lead(b: u8) -> bool {
    (0xc0 <= b <= 0xc3) || (0x90 <= b <= 0x92) || (0x80 <= b <= 0x82)
}

/// The format the text checks give when the document is not recognised as
/// JSON: mostly hexadecimal digits (more than four fifths of the bytes,
/// rounded down), a MessagePack lead byte, or else an envelope.
pub open spec fn text_format(bytes: Seq<u8>) -> InputFormat {
    if hex_digits(bytes).len() > bytes.len() * 4 / 5 {
        InputFormat::HexData
    } else if bytes.len() > 4 && is_messagepack_lead(bytes[0]) {
        InputFormat::MessagePack
    } else {
        InputFormat::BlockArray
    }
}

/// The format of a document given its JSON reading (if any) and its bytes.
pub open spec fn input_format(doc: Option<DecodedValue>, bytes: Seq<u8>) -> InputFormat {
    match doc {
        Some(DecodedValue::Array(items)) => if items@.len() > 0 {
            if some_has_field(items@, "type"@) && some_has_field(items@, "buffer"@) {
                InputFormat::BlockArray
            } else {
                InputFormat::JsonArray
            }
        } else {
            text_format(bytes)
        },
        Some(DecodedValue::Dictionary(_)) => InputFormat::JsonObject,
        _ => text_format(bytes),
    }
}

/// `b` is the block made for raw bytes `d`: the supported tag, a two-byte
/// header with the length's low byte, and `d` itself as payload.
pub open spec fn raw_block(d: Seq<u8>, b: BlockView) -> bool {
    &&& b.0 == SUPPORTED_TAG
    &&& b.1 == seq![MARKER_U8, (d.len() % 256) as u8]
    &&& b.2 == d
}

/// `r` holds exactly one block, made for the raw bytes `d`.
pub open spec fn single_raw_block(d: Seq<u8>, r: Result<Vec<MessagePackExt>, StructuralError>) -> bool {
    r matches Ok(bs) && bs@.len() == 1 && raw_block(d, bs@[0].view())
}

/// What `process_input` yields for a document.
pub open spec fn input_result(
    text: Seq<char>,
    bytes: Seq<u8>,
    r: Result<Vec<MessagePackExt>, StructuralError>,
) -> bool {
    match input_format(json_text_value(text), bytes) {
        InputFormat::JsonArray | InputFormat::JsonObject => {
            single_raw_block(msgpack_encoding(json_text_value(text)->0), r)
        },
        InputFormat::HexData => if hex_bytes(hex_digits(bytes)).len() == 0 {
            r == Err::<Vec<MessagePackExt>, StructuralError>(StructuralError::InvalidHex)
        } else {
            single_raw_block(hex_bytes(hex_digits(bytes)), r)
        },
        _ => match (input_blocks(text), r) {
            (Ok(s), Ok(bs)) => s == bs@.map_values(|b: MessagePackExt| b.view()),
            (Err(e), Err(f)) => e == f,
            _ => false,
        },
    }
}

/// The hexadecimal digits of a byte string, in order.
fn hex_digits_of(bytes: &[u8]) -> (r: Vec<u8>)
    ensures
        r@ == hex_digits(bytes@),
        forall|i: int| 0 <= i < r@.len() ==> is_hex_digit(#[trigger] r@[i]),
{
    let len = bytes.len();
    let mut out: Vec<u8> = Vec::new();
    let mut i: usize = 0;
    while i < len
        invariant
            len == bytes@.len(),
            i <= len,
            out@ == hex_digits(bytes@.subrange(0, i as int)),
            forall|k: int| 0 <= k < out@.len() ==> is_hex_digit(#[trigger] out@[k]),
        decreases len - i,
    {
        assert(bytes@.subrange(0, i + 1).drop_last() == bytes@.subrange(0, i as int));
        let b = bytes[i];
        if (48 <= b && b <= 57) || (65 <= b && b <= 70) || (97 <= b && b <= 102) {
            out.push(b);
        }
        i = i + 1;
    }
    assert(bytes@.subrange(0, len as int) == bytes@);
    out
}

/// The value of a hexadecimal digit.
fn hex_digit_value(b: u8) -> (r: u8)
    requires
        is_hex_digit(b),
    ensures
        r == hex_value(b),
        r < 16,
{
    if b <= 57 {
        b - 48
    } else if b <= 70 {
        b - 55
    } else {
        b - 87
    }
}

/// The bytes written by consecutive pairs of hexadecimal digits.
fn decode_hex_pairs(d: &Vec<u8>) -> (r: Vec<u8>)
    requires
        forall|i: int| 0 <= i < d@.len() ==> is_hex_digit(#[trigger] d@[i]),
    ensures
        r@ == hex_bytes(d@),
{
    let len = d.len();
    let pairs = len / 2;
    let mut out: Vec<u8> = Vec::new();
    let mut k: usize = 0;
    while k < pairs
        invariant
            len == d@.len(),
            pairs == len / 2,
            forall|i: int| 0 <= i < d@.len() ==> is_hex_digit(#[trigger] d@[i]),
            k <= pairs,
            out@.len() == k,
            forall|i: int| 0 <= i < k ==> #[trigger] out@[i] == (hex_value(d@[2 * i]) * 16
                + hex_value(d@[2 * i + 1])) as u8,
        decreases pairs - k,
    {
        let hi = hex_digit_value(d[2 * k]);
        let lo = hex_digit_value(d[2 * k + 1]);
        out.push(hi * 16 + lo);
        k = k + 1;
    }
    assert(out@ == hex_bytes(d@));
    out
}

/// Whether some element of an array has the field `key`.
fn some_element_has_field(items: &Vec<DecodedValue>, key: &str) -> (b: bool)
    ensures
        b == some_has_field(items@, key@),
{
    let wanted = String::from_str(key);
    let mut i: usize = 0;
    while i < items.len()
        invariant
            i <= items@.len(),
            wanted@ == key@,
            forall|k: int| 0 <= k < i ==> field(#[trigger] items@[k], key@) is None,
        decreases items@.len() - i,
    {
        if let DecodedValue::Dictionary(entries) = &items[i] {
            assert(entries@.subrange(0, entries@.len() as int) == entries@);
            let mut n: usize = entries.len();
            while n > 0
                invariant
                    i < items@.len(),
                    items@[i as int] == DecodedValue::Dictionary(*entries),
                    n <= entries@.len(),
                    wanted@ == key@,
                    forall|k: int| 0 <= k < i ==> field(#[trigger] items@[k], key@) is None,
                    field(items@[i as int], key@) == crate::envelope::lookup(
                        entries@.subrange(0, n as int),
                        key@,
                    ),
                decreases n,
            {
                assert(entries@.subrange(0, n as int).subrange(0, n - 1) == entries@.subrange(0, n - 1));
                if let DecodedValue::Str(k) = &entries[n - 1].0 {
                    if *k == wanted {
                        assert(field(items@[i as int], key@) is Some);
                        return true;
                    }
                }
                n = n - 1;
            }
        }
        i = i + 1;
    }
    false
}

/// The format given by the text checks.
fn text_format_of(bytes: &[u8]) -> (r: InputFormat)
    ensures
        r == text_format(bytes@),
{
    let len = bytes.len();
    let digits = hex_digits_of(bytes);
    let threshold = len / 5 * 4 + len % 5 * 4 / 5;
    assert(threshold == len * 4 / 5) by (nonlinear_arith)
        requires
            threshold == len / 5 * 4 + len % 5 * 4 / 5,
    ;
    if digits.len() > threshold {
        InputFormat::HexData
    } else if len > 4 && ((0xc0 <= bytes[0] && bytes[0] <= 0xc3) || (0x90 <= bytes[0] && bytes[0]
        <= 0x92) || (0x80 <= bytes[0] && bytes[0] <= 0x82)) {
        InputFormat::MessagePack
    } else {
        InputFormat::BlockArray
    }
}

/// The single block made for raw bytes.
fn raw_block_of(d: Vec<u8>) -> (r: Vec<MessagePackExt>)
    ensures
        r@.len() == 1,
        raw_block(d@, r@[0].view()),
{
    let mut header: Vec<u8> = Vec::new();
    header.push(MARKER_U8);
    header.push((d.len() % 256) as u8);
    let mut out: Vec<MessagePackExt> = Vec::new();
    out.push(MessagePackExt { format_tag: SUPPORTED_TAG, header_data: header, data: d });
    proof {
        assert(out@[0].header_data@ == seq![MARKER_U8, (d@.len() % 256) as u8]);
    }
    out
}

impl LZ4MessagePackProcessor {
    /// Recognises what an input document holds: an envelope, another JSON
    /// array or object, hexadecimal text, or raw MessagePack; anything else
    /// is taken for an envelope.
    pub fn analyze_input_format(input_json: &str) -> (r: InputFormat)
        ensures
            r == input_format(json_text_value(input_json@), input_json.spec_bytes()),
    {
        let doc = parse_json_text(input_json);
        match &doc {
            Some(DecodedValue::Array(items)) => {
                if items.len() > 0 {
                    if some_element_has_field(items, "type") && some_element_has_field(
                        items,
                        "buffer",
                    ) {
                        InputFormat::BlockArray
                    } else {
                        InputFormat::JsonArray
                    }
                } else {
                    text_format_of(input_json.as_bytes())
                }
            },
            Some(DecodedValue::Dictionary(_)) => InputFormat::JsonObject,
            _ => text_format_of(input_json.as_bytes()),
        }
    }

    /// Turns an input document into blocks according to its format: an
    /// envelope is split into its blocks; other JSON becomes one block of
    /// its MessagePack encoding; hexadecimal text becomes one block of the
    /// bytes it spells. These raw blocks carry the supported tag and a
    /// header with the low byte of their length.
    pub fn process_input(input_json: &str) -> (r: Result<Vec<MessagePackExt>, StructuralError>)
        ensures
            input_result(input_json@, input_json.spec_bytes(), r),
    {
        match Self::analyze_input_format(input_json) {
            InputFormat::JsonArray | InputFormat::JsonObject => {
                let v = match parse_json_text(input_json) {
                    Some(v) => v,
                    None => return Err(StructuralError::InvalidDocument),
                };
                Ok(raw_block_of(write_msgpack(&v)))
            },
            InputFormat::HexData => {
                let digits = hex_digits_of(input_json.as_bytes());
                let bytes = decode_hex_pairs(&digits);
                if bytes.len() == 0 {
                    return Err(StructuralError::InvalidHex);
                }
                Ok(raw_block_of(bytes))
            },
            _ => {
                Self::parse_input(input_json)
            },
        }
    }
}

} // verus!
