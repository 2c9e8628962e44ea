//! The decoded MessagePack tree, the JSON-like tree it is presented as, and
//! the conversion between them.
use vstd::prelude::*;
use vstd::string::StringExecFns;

use crate::LZ4MessagePackProcessor;

verus! {

/// A MessagePack value as decoded from bytes.
///
/// Floating-point numbers are kept as their IEEE-754 bit patterns; strings
/// whose bytes are not valid UTF-8 keep their raw bytes.
pub enum DecodedValue {
    Nil,
    Boolean(bool),
    /// A non-negative integer.
    PosInt(u64),
    /// A negative integer.
    NegInt(i64),
    Float32Bits(u32),
    Float64Bits(u64),
    Str(String),
    InvalidStr(Vec<u8>),
    Binary(Vec<u8>),
    Array(Vec<DecodedValue>),
    Dictionary(Vec<(DecodedValue, DecodedValue)>),
    Ext(i8, Vec<u8>),
}

/// A JSON-like value: what a decoded document is presented as.
///
/// Object entries keep the order in which they were produced; where a key
/// repeats, a reader takes the later entry.
pub enum JsonValue {
    Null,
    Bool(bool),
    /// An integer that fits `i64`.
    Int(i64),
    /// A non-negative integer above `i64::MAX`.
    UInt(u64),
    Float32Bits(u32),
    Float64Bits(u64),
    Str(String),
    Array(Vec<JsonValue>),
    Object(Vec<(String, JsonValue)>),
}

/// The `f32` with these bits is finite (neither infinite nor NaN).
pub open spec fn finite32(bits: u32) -> bool {
    bits & 0x7f800000u32 != 0x7f800000u32
}

/// The `f64` with these bits is finite (neither infinite nor NaN).
pub open spec fn finite64(bits: u64) -> bool {
    bits & 0x7ff0000000000000u64 != 0x7ff0000000000000u64
}

/// `j` lists the bytes of `b` as JSON integers.
pub open spec fn bytes_as_json(b: Seq<u8>, j: JsonValue) -> bool {
    match j {
        JsonValue::Array(items) => items@.len() == b.len() && forall|i: int|
            0 <= i < b.len() ==> #[trigger] items@[i] == JsonValue::Int(b[i] as i64),
        _ => false,
    }
}

/// `j` is the JSON form of the decoded value `v`.
///
/// Every integer becomes a number (`UInt` above `i64::MAX`); non-finite
/// floats, which JSON cannot write, and strings that are not UTF-8 become
/// `Null`; binary data becomes an array of byte values; an
/// extension becomes an object with `ext_type` and `ext_data`; map entries
/// whose key is not a string are dropped.
pub open spec fn json_of(v: DecodedValue, j: JsonValue) -> bool
    decreases v, 0nat,
{
    match v {
        DecodedValue::Nil => j == JsonValue::Null,
        DecodedValue::Boolean(b) => j == JsonValue::Bool(b),
        DecodedValue::PosInt(n) => if n <= i64::MAX as u64 {
            j == JsonValue::Int(n as i64)
        } else {
            j == JsonValue::UInt(n)
        },
        DecodedValue::NegInt(n) => j == JsonValue::Int(n),
        DecodedValue::Float32Bits(b) => if finite32(b) {
            j == JsonValue::Float32Bits(b)
        } else {
            j == JsonValue::Null
        },
        DecodedValue::Float64Bits(b) => if finite64(b) {
            j == JsonValue::Float64Bits(b)
        } else {
            j == JsonValue::Null
        },
        DecodedValue::Str(s) => j matches JsonValue::Str(t) && t@ == s@,
        DecodedValue::InvalidStr(_) => j == JsonValue::Null,
        DecodedValue::Binary(b) => bytes_as_json(b@, j),
        DecodedValue::Array(items) => match j {
            JsonValue::Array(out) => out@.len() == items@.len() && forall|i: int|
                0 <= i < items@.len() ==> json_of(#[trigger] items@[i], out@[i]),
            _ => false,
        },
        DecodedValue::Dictionary(entries) => match j {
            JsonValue::Object(out) => entries_json_of(entries@, out@),
            _ => false,
        },
        DecodedValue::Ext(t, data) => match j {
            JsonValue::Object(out) => {
                &&& out@.len() == 2
                &&& out@[0].0@ == "ext_type"@
                &&& out@[0].1 == JsonValue::Int(t as i64)
                &&& out@[1].0@ == "ext_data"@
                &&& bytes_as_json(data@, out@[1].1)
            },
            _ => false,
        },
    }
}

/// `out` holds, in order, the JSON form of each entry of `entries` whose
/// key is a UTF-8 string.
pub open spec fn entries_json_of(
    entries: Seq<(DecodedValue, DecodedValue)>,
    out: Seq<(String, JsonValue)>,
) -> bool
    decreases entries, 1nat,
{
    if entries.len() == 0 {
        out.len() == 0
    } else {
        let init = entries.subrange(0, entries.len() - 1);
        let last = entries[entries.len() - 1];
        match last.0 {
            DecodedValue::Str(k) => {
                &&& out.len() > 0
                &&& out[out.len() - 1].0@ == k@
                &&& json_of(last.1, out[out.len() - 1].1)
                &&& entries_json_of(init, out.subrange(0, out.len() - 1))
            },
            _ => entries_json_of(init, out),
        }
    }
}


/// JSON array of the byte values of `b`.
fn bytes_to_json(b: &Vec<u8>) -> (r: JsonValue)
    ensures
        bytes_as_json(b@, r),
{
    let mut out: Vec<JsonValue> = Vec::new();
    let mut i: usize = 0;
    while i < b.len()
        invariant
            i <= b@.len(),
            out@.len() == i,
            forall|k: int| 0 <= k < i ==> #[trigger] out@[k] == JsonValue::Int(b@[k] as i64),
        decreases b@.len() - i,
    {
        out.push(JsonValue::Int(b[i] as i64));
        i = i + 1;
    }
    JsonValue::Array(out)
}

impl LZ4MessagePackProcessor {
    /// Converts a decoded MessagePack value into its JSON form.
    pub fn convert_value_to_json(value: &DecodedValue) -> (r: JsonValue)
        ensures
            json_of(*value, r),
        decreases *value,
    {
        match value {
            DecodedValue::Nil => JsonValue::Null,
            DecodedValue::Boolean(b) => JsonValue::Bool(*b),
            DecodedValue::PosInt(n) => {
                if *n <= i64::MAX as u64 {
                    JsonValue::Int(*n as i64)
                } else {
                    JsonValue::UInt(*n)
                }
            },
            DecodedValue::NegInt(n) => JsonValue::Int(*n),
            DecodedValue::Float32Bits(b) => {
                if *b & 0x7f800000u32 != 0x7f800000u32 {
                    JsonValue::Float32Bits(*b)
                } else {
                    JsonValue::Null
                }
            },
            DecodedValue::Float64Bits(b) => {
                if *b & 0x7ff0000000000000u64 != 0x7ff0000000000000u64 {
                    JsonValue::Float64Bits(*b)
                } else {
                    JsonValue::Null
                }
            },
            DecodedValue::Str(s) => JsonValue::Str(String::from_str(s.as_str())),
            DecodedValue::InvalidStr(_) => JsonValue::Null,
            DecodedValue::Binary(b) => bytes_to_json(b),
            DecodedValue::Array(items) => {
                let mut out: Vec<JsonValue> = Vec::new();
                let mut i: usize = 0;
                while i < items.len()
                    invariant
                        *value == DecodedValue::Array(*items),
                        i <= items@.len(),
                        out@.len() == i,
                        forall|k: int| 0 <= k < i ==> json_of(#[trigger] items@[k], out@[k]),
                    decreases items@.len() - i,
                {
                    proof {
                        assert(decreases_to!(*value => (*value)->Array_0));
                    }
                    let j = Self::convert_value_to_json(&items[i]);
                    out.push(j);
                    i = i + 1;
                }
                JsonValue::Array(out)
            },
            DecodedValue::Dictionary(entries) => {
                let mut out: Vec<(String, JsonValue)> = Vec::new();
                let mut i: usize = 0;
                while i < entries.len()
                    invariant
                        *value == DecodedValue::Dictionary(*entries),
                        i <= entries@.len(),
                        entries_json_of(entries@.subrange(0, i as int), out@),
                    decreases entries@.len() - i,
                {
                    let ghost before = out@;
                    proof {
                        assert(entries@.subrange(0, i + 1).subrange(0, i as int)
                            == entries@.subrange(0, i as int));
                    }
                    match &entries[i].0 {
                        DecodedValue::Str(k) => {
                            proof {
                                assert(decreases_to!(*value => (*value)->Dictionary_0));
                            }
                            let j = Self::convert_value_to_json(&entries[i].1);
                            out.push((String::from_str(k.as_str()), j));
                            proof {
                                assert(out@.subrange(0, out@.len() - 1) == before);
                            }
                        },
                        _ => {},
                    }
                    i = i + 1;
                }
                proof {
                    assert(entries@.subrange(0, entries@.len() as int) == entries@);
                }
                JsonValue::Object(out)
            },
            DecodedValue::Ext(t, data) => {
                let mut out: Vec<(String, JsonValue)> = Vec::new();
                out.push((String::from_str("ext_type"), JsonValue::Int(*t as i64)));
                out.push((String::from_str("ext_data"), bytes_to_json(data)));
                JsonValue::Object(out)
            },
        }
    }
}

/// A JSON number.
pub open spec fn is_number(j: JsonValue) -> bool {
    j is Int || j is UInt || j is Float32Bits || j is Float64Bits
}

/// The first five items are string, string, number, string, string: the
/// positional form of a problem-details record.
pub open spec fn has_record_shape(items: Seq<JsonValue>) -> bool {
    &&& items.len() >= 5
    &&& items[0] is Str
    &&& items[1] is Str
    &&& is_number(items[2])
    &&& items[3] is Str
    &&& items[4] is Str
}

/// Names given to the five positional fields of a record, in order.
pub open spec fn record_key(k: int) -> Seq<char> {
    if k == 0 {
        "type"@
    } else if k == 1 {
        "title"@
    } else if k == 2 {
        "status"@
    } else if k == 3 {
        "detail"@
    } else {
        "instance"@
    }
}

/// `r` is `j` after shape promotion: an array of record shape becomes an
/// object whose five entries take the record's keys and the array's first
/// five items; anything else is left as it is.
pub open spec fn promoted(j: JsonValue, r: JsonValue) -> bool {
    match j {
        JsonValue::Array(items) => if has_record_shape(items@) {
            match r {
                JsonValue::Object(out) => out@.len() == 5 && forall|k: int|
                    0 <= k < 5 ==> (#[trigger] out@[k]).0@ == record_key(k) && out@[k].1
                        == items@[k],
                _ => false,
            }
        } else {
            r == j
        },
        _ => r == j,
    }
}

fn is_str(j: &JsonValue) -> (b: bool)
    ensures
        b == (*j is Str),
{
    match j {
        JsonValue::Str(_) => true,
        _ => false,
    }
}

fn is_number_value(j: &JsonValue) -> (b: bool)
    ensures
        b == is_number(*j),
{
    match j {
        JsonValue::Int(_) => true,
        JsonValue::UInt(_) => true,
        JsonValue::Float32Bits(_) => true,
        JsonValue::Float64Bits(_) => true,
        _ => false,
    }
}

impl LZ4MessagePackProcessor {
    /// Reinterprets a top-level array of record shape as a named object with
    /// keys `type`, `title`, `status`, `detail` and `instance`.
    pub fn promote_record_shape(value: JsonValue) -> (r: JsonValue)
        ensures
            promoted(value, r),
    {
        match value {
            JsonValue::Array(items) => {
                if items.len() >= 5 && is_str(&items[0]) && is_str(&items[1]) && is_number_value(
                    &items[2],
                ) && is_str(&items[3]) && is_str(&items[4]) {
                    let ghost orig = items@;
                    let mut items = items;
                    items.truncate(5);
                    assert(items@ == orig.subrange(0, 5));
                    let instance = items.pop().unwrap();
                    let detail = items.pop().unwrap();
                    let status = items.pop().unwrap();
                    let title = items.pop().unwrap();
                    let kind = items.pop().unwrap();
                    let mut out: Vec<(String, JsonValue)> = Vec::new();
                    out.push((String::from_str("type"), kind));
                    out.push((String::from_str("title"), title));
                    out.push((String::from_str("status"), status));
                    out.push((String::from_str("detail"), detail));
                    out.push((String::from_str("instance"), instance));
                    JsonValue::Object(out)
                } else {
                    JsonValue::Array(items)
                }
            },
            other => other,
        }
    }
}

} // verus!
