//! Calls into the `rmpv` MessagePack codec and into `serde_json` for JSON
//! text, exchanging values as `DecodedValue` trees.
use vstd::prelude::*;

use crate::value::DecodedValue;
use rmpv::Value as MpValue;

verus! {

#[verifier::external_type_specification]
#[verifier::external_body]
pub struct ExRmpvValue(MpValue);

/// What `rmpv::decode::read_value` yields when reading from the start of
/// `bytes`: the first value and the number of bytes it took, or `None`.
pub uninterp spec fn msgpack_prefix(bytes: Seq<u8>) -> Option<(DecodedValue, nat)>;

/// The bytes that `rmpv::encode::write_value` writes for `v`.
pub uninterp spec fn msgpack_encoding(v: DecodedValue) -> Seq<u8>;

/// What `serde_json::from_str` yields for `text` read as an `rmpv::Value`.
pub uninterp spec fn json_text_value(text: Seq<char>) -> Option<DecodedValue>;

/// What `serde_json::to_string` yields for `v` written as an `rmpv::Value`.
pub uninterp spec fn json_text_of(v: DecodedValue) -> Option<Seq<char>>;

/// The value holds no string with invalid UTF-8, which `rmpv` offers no
/// way to build.
pub open spec fn encodable(v: DecodedValue) -> bool
    decreases v,
{
    match v {
        DecodedValue::InvalidStr(_) => false,
        DecodedValue::Array(items) => forall|i: int|
            0 <= i < items@.len() ==> encodable(#[trigger] items@[i]),
        DecodedValue::Dictionary(entries) => forall|i: int|
            0 <= i < entries@.len() ==> encodable((#[trigger] entries@[i]).0) && encodable(
                entries@[i].1,
            ),
        _ => true,
    }
}

#[verifier::external_type_specification]
#[verifier::external_body]
pub struct ExRmpvInteger(rmpv::Integer);

#[verifier::external_type_specification]
#[verifier::external_body]
pub struct ExRmpvUtf8String(rmpv::Utf8String);

/// Moves an `rmpv::Value` into the library's tree, variant by variant;
/// floats keep their bit patterns. Used by the decoding wrappers below.
#[verifier::external_body]
fn from_rmpv(v: MpValue) -> DecodedValue {
    match v {
        MpValue::Nil => DecodedValue::Nil,
        MpValue::Boolean(b) => DecodedValue::Boolean(b),
        MpValue::Integer(i) => from_rmpv_integer(i),
        MpValue::F32(x) => DecodedValue::Float32Bits(x.to_bits()),
        MpValue::F64(x) => DecodedValue::Float64Bits(x.to_bits()),
        MpValue::String(s) => from_rmpv_string(s),
        MpValue::Binary(b) => DecodedValue::Binary(b),
        MpValue::Array(a) => DecodedValue::Array(a.into_iter().map(from_rmpv).collect()),
        MpValue::Map(m) => DecodedValue::Dictionary(m.into_iter().map(from_rmpv_pair).collect()),
        MpValue::Ext(t, d) => DecodedValue::Ext(t, d),
    }
}

/// Moves a map entry of `rmpv` values into the library's tree.
#[verifier::external_body]
fn from_rmpv_pair(e: (MpValue, MpValue)) -> (DecodedValue, DecodedValue) {
    (from_rmpv(e.0), from_rmpv(e.1))
}

/// Tells apart the two forms of `rmpv::Integer` (`as_u64` fails only for
/// negative values, which `as_i64` then always holds).
#[verifier::external_body]
fn from_rmpv_integer(i: rmpv::Integer) -> DecodedValue {
    match i.as_u64() {
        Some(n) => DecodedValue::PosInt(n),
        None => DecodedValue::NegInt(i.as_i64().unwrap_or(i64::MIN)),
    }
}

/// Tells apart a valid UTF-8 `rmpv::Utf8String` from one holding raw bytes.
#[verifier::external_body]
fn from_rmpv_string(s: rmpv::Utf8String) -> DecodedValue {
    if s.is_str() {
        DecodedValue::Str(s.into_str().unwrap_or_default())
    } else {
        DecodedValue::InvalidStr(s.into_bytes())
    }
}

/// Builds the `rmpv::Value` of a tree, variant by variant. Used by the
/// encoding wrappers below.
#[verifier::external_body]
fn to_rmpv(v: &DecodedValue) -> MpValue {
    match v {
        DecodedValue::Nil => MpValue::Nil,
        DecodedValue::Boolean(b) => MpValue::Boolean(*b),
        DecodedValue::PosInt(n) => MpValue::from(*n),
        DecodedValue::NegInt(n) => MpValue::from(*n),
        DecodedValue::Float32Bits(x) => float_value(0xca, &x.to_be_bytes()),
        DecodedValue::Float64Bits(x) => float_value(0xcb, &x.to_be_bytes()),
        DecodedValue::Str(s) => MpValue::from(s.as_str()),
        DecodedValue::InvalidStr(b) | DecodedValue::Binary(b) => MpValue::Binary(b.clone()),
        DecodedValue::Array(a) => MpValue::Array(a.iter().map(to_rmpv).collect()),
        DecodedValue::Dictionary(m) => to_rmpv_map(m),
        DecodedValue::Ext(t, d) => MpValue::Ext(*t, d.clone()),
    }
}

/// Builds the `rmpv` map of a list of entries.
#[verifier::external_body]
fn to_rmpv_map(m: &Vec<(DecodedValue, DecodedValue)>) -> MpValue {
    MpValue::Map(m.iter().map(|(k, x)| (to_rmpv(k), to_rmpv(x))).collect())
}

/// Reads an `rmpv` float back from its MessagePack form: the float marker
/// (0xca or 0xcb) followed by the big-endian bit pattern.
#[verifier::external_body]
fn float_value(marker: u8, bits: &[u8]) -> MpValue {
    let encoded = [&[marker][..], bits].concat();
    rmpv::decode::read_value(&mut &encoded[..]).unwrap_or(MpValue::Nil)
}

/// Relies on `rmpv::decode::read_value` over a byte cursor: it reads one
/// value from the start of `bytes`, consuming at least its marker byte and
/// never more than the input; the cursor position gives the count.
#[verifier::external_body]
pub(crate) fn read_msgpack_prefix(bytes: &[u8]) -> (r: Option<(DecodedValue, usize)>)
    ensures
        r matches Some((v, n)) ==> msgpack_prefix(bytes@) == Some((v, n as nat)),
        r is None ==> msgpack_prefix(bytes@) is None,
        r matches Some((_, n)) ==> 0 < n <= bytes@.len(),
{
    let mut cursor = std::io::Cursor::new(bytes);
    match rmpv::decode::read_value(&mut cursor) {
        Ok(v) => Some((from_rmpv(v), cursor.position() as usize)),
        Err(_) => None,
    }
}

/// Relies on `rmpv::encode::write_value` into a `Vec`, which cannot fail.
#[verifier::external_body]
pub(crate) fn write_msgpack(v: &DecodedValue) -> (r: Vec<u8>)
    requires
        encodable(*v),
    ensures
        r@ == msgpack_encoding(*v),
{
    let mut out = Vec::new();
    let _ = rmpv::encode::write_value(&mut out, &to_rmpv(v));
    out
}

/// Relies on `serde_json::from_str` into `rmpv::Value`: numbers become
/// integers or floats, objects become maps with string keys; a syntax
/// error becomes `None`. serde_json hands over only UTF-8 strings, which
/// rmpv keeps as valid `Utf8String`s, so the value is encodable.
#[verifier::external_body]
pub(crate) fn parse_json_text(text: &str) -> (r: Option<DecodedValue>)
    ensures
        r == json_text_value(text@),
        r matches Some(v) ==> encodable(v),
{
    serde_json::from_str::<MpValue>(text).ok().map(from_rmpv)
}

/// Relies on `serde_json::to_string` of an `rmpv::Value`; its error (a map
/// key that is not a string) becomes `None`.
#[verifier::external_body]
pub(crate) fn render_json_text(v: &DecodedValue) -> (r: Option<String>)
    requires
        encodable(*v),
    ensures
        r is None ==> json_text_of(*v) is None,
        r matches Some(s) ==> json_text_of(*v) == Some(s@),
{
    serde_json::to_string(&to_rmpv(v)).ok()
}

} // verus!
