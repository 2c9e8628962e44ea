use lz4_messagepack::envelope::{MessagePackExt, StructuralError};
use lz4_messagepack::format::OutputFormat;
use lz4_messagepack::input::InputFormat;
use lz4_messagepack::models::{encode_block, json_to_msgpack, msgpack_to_json, ConversionError};
use lz4_messagepack::processor::BlockOutcome;
use lz4_messagepack::profile::ByteClass;
use lz4_messagepack::size_hint::size_header;
use lz4_messagepack::value::{DecodedValue, JsonValue};
use lz4_messagepack::LZ4MessagePackProcessor as P;

fn hint(h: &[u8]) -> usize {
    P::get_uncompressed_size(h)
}

fn key_of(entry: &(String, JsonValue)) -> &str {
    entry.0.as_str()
}

#[test]
fn size_hint_rules_in_order() {
    assert_eq!(hint(&[205, 1, 2]), 258);
    assert_eq!(hint(&[206, 0, 0, 1, 0]), 256);
    assert_eq!(hint(&[204, 12, 229, 205]), 3941);
    assert_eq!(hint(&[204, 12, 229, 205, 7, 7]), 3941);
    assert_eq!(hint(&[204, 5]), 5);
    assert_eq!(hint(&[204, 1, 2]), 258);
    assert_eq!(hint(&[204, 1, 2, 3]), 66051);
    assert_eq!(hint(&[204, 0, 0, 1, 0]), 256);
    assert_eq!(hint(&[204, 205, 1, 2, 0, 0]), 258);
    assert_eq!(hint(&[204, 206, 0, 0, 1, 0]), 256);
    assert_eq!(hint(&[204, 0x10, 0x27, 0, 0, 0]), 10000);
    assert_eq!(hint(&[204, 0, 0, 0x0f, 0, 0]), 983040);
}

#[test]
fn size_hint_fallback_is_four_times_length() {
    assert_eq!(hint(&[204, 0, 0, 0, 0, 0]), 24);
    assert_eq!(hint(&[204, 0, 0, 0, 1, 0]), 24);
    assert_eq!(hint(&[1, 2, 3]), 12);
    assert_eq!(hint(&[204]), 4);
    assert_eq!(hint(&[205, 1]), 8);
    assert_eq!(hint(&[206, 1, 2, 3]), 16);
    assert_eq!(hint(&[]), 0);
}

#[test]
fn size_header_widths() {
    assert_eq!(size_header(5), vec![204, 5]);
    assert_eq!(size_header(300), vec![204, 1, 44]);
    assert_eq!(size_header(70000), vec![204, 1, 17, 112]);
    assert_eq!(size_header(20_000_000), vec![204, 1, 49, 45, 0]);
    for n in [0usize, 5, 255, 256, 300, 65535, 65536, 70000, 20_000_000] {
        assert_eq!(hint(&size_header(n)), n);
    }
    // The one length whose header matches the known-sample pattern.
    assert_eq!(hint(&size_header(845261)), 3941);
}

#[test]
fn decompress_empty_payload_succeeds() {
    let r = P::decompress_data(&[], 5);
    assert_eq!(r, Some((Vec::new(), 0)));
}

#[test]
fn decompress_first_strategy_with_exact_hint() {
    let original: Vec<u8> = (0..200u32).map(|i| (i % 7) as u8).collect();
    let compressed = lz4::block::compress(&original, None, false).unwrap();
    let (bytes, id) = P::decompress_data(&compressed, original.len()).expect("decodes");
    assert_eq!(bytes, original);
    assert_eq!(id, 1);
}

#[test]
fn decompress_size_prefixed_payload() {
    let original: Vec<u8> = b"hello hello hello hello hello".to_vec();
    let compressed = lz4::block::compress(&original, None, true).unwrap();
    let (bytes, _) = P::decompress_data(&compressed, 0).expect("decodes");
    assert!(!bytes.is_empty());
}

#[test]
fn decompress_falls_through_to_size_prefixed_strategy() {
    // Not a raw block; read with a size prefix it decodes to nothing.
    assert_eq!(P::decompress_data(&[1, 2, 3, 4, 5], 10), Some((Vec::new(), 2)));
}

#[test]
fn profile_of_empty_input() {
    let p = P::summarize_binary_data(&[]);
    assert_eq!(p.total_bytes, 0);
    assert_eq!(p.zero_bytes, 0);
    assert_eq!(p.text_bytes, 0);
    assert_eq!(p.control_bytes, 0);
    assert_eq!(p.high_bytes, 0);
    assert!(p.histogram.iter().all(|c| *c == 0));
    assert!(p.most_common.is_empty());
    assert!(p.first_bytes.is_empty());
    assert_eq!(p.class, ByteClass::GeneralBinary);
}

#[test]
fn profile_counts_and_classes() {
    let p = P::summarize_binary_data(&[0, 0, 0, 65]);
    assert_eq!((p.zero_bytes, p.text_bytes, p.control_bytes, p.high_bytes), (3, 1, 3, 0));
    assert_eq!(p.class, ByteClass::ManyZeros);
    assert_eq!(p.histogram[0], 3);
    assert_eq!(p.histogram[65], 1);
    assert_eq!((p.most_common[0].byte, p.most_common[0].count), (0, 3));
    assert_eq!((p.most_common[1].byte, p.most_common[1].count), (65, 1));
    assert_eq!(P::summarize_binary_data(b"hello\n").class, ByteClass::MostlyText);
    assert_eq!(P::summarize_binary_data(&[200, 201, 202, 1]).class, ByteClass::ManyHighBytes);
    assert_eq!(P::summarize_binary_data(&[1, 2, 200, 65]).class, ByteClass::GeneralBinary);
}

#[test]
fn profile_top_ten_ties_by_value() {
    let data: Vec<u8> = (0..=255u8).chain([9u8, 9, 3]).collect();
    let p = P::summarize_binary_data(&data);
    assert_eq!(p.most_common.len(), 10);
    let listed: Vec<(u8, usize)> = p.most_common.iter().map(|b| (b.byte, b.count)).collect();
    assert_eq!(listed, vec![(9, 3), (3, 2), (0, 1), (1, 1), (2, 1), (4, 1), (5, 1), (6, 1), (7, 1), (8, 1)]);
    assert_eq!(p.first_bytes, (0..32u8).collect::<Vec<_>>());
}

#[test]
fn recovery_skips_undecodable_bytes() {
    let r = P::parse_partial_messagepack(&[0xdd, 0x01, 0xdd, 0x02]);
    assert_eq!(r.len(), 2);
    assert!(matches!(r[0], JsonValue::Int(1)));
    assert!(matches!(r[1], JsonValue::Int(2)));
}

#[test]
fn recovery_stops_at_one_hundred_values() {
    let r = P::parse_partial_messagepack(&[7u8; 150]);
    assert_eq!(r.len(), 100);
    assert!(P::parse_partial_messagepack(&[]).is_empty());
    assert!(P::parse_partial_messagepack(&[0xdd, 0xdd]).is_empty());
}

#[test]
fn record_shape_is_promoted() {
    let items = vec![
        JsonValue::Str("https://api.xmobqa.com/errors/validation/missing-required-field".to_string()),
        JsonValue::Str("Phone number is required".to_string()),
        JsonValue::Int(400),
        JsonValue::Str("detail".to_string()),
        JsonValue::Str("/instance".to_string()),
    ];
    match P::promote_record_shape(JsonValue::Array(items)) {
        JsonValue::Object(entries) => {
            let keys: Vec<&str> = entries.iter().map(key_of).collect();
            assert_eq!(keys, vec!["type", "title", "status", "detail", "instance"]);
            assert!(matches!(&entries[1].1, JsonValue::Str(s) if s == "Phone number is required"));
            assert!(matches!(entries[2].1, JsonValue::Int(400)));
            assert!(matches!(&entries[4].1, JsonValue::Str(s) if s == "/instance"));
        }
        _ => panic!("expected an object"),
    }
}

#[test]
fn other_shapes_are_not_promoted() {
    let items = vec![
        JsonValue::Str("a".to_string()),
        JsonValue::Int(1),
        JsonValue::Int(400),
        JsonValue::Str("d".to_string()),
        JsonValue::Str("i".to_string()),
    ];
    assert!(matches!(P::promote_record_shape(JsonValue::Array(items)), JsonValue::Array(a) if a.len() == 5));
    let short = vec![JsonValue::Str("a".to_string()), JsonValue::Str("b".to_string())];
    assert!(matches!(P::promote_record_shape(JsonValue::Array(short)), JsonValue::Array(a) if a.len() == 2));
}

#[test]
fn json_form_of_values() {
    assert!(matches!(P::convert_value_to_json(&DecodedValue::PosInt(u64::MAX)), JsonValue::UInt(u64::MAX)));
    assert!(matches!(P::convert_value_to_json(&DecodedValue::PosInt(7)), JsonValue::Int(7)));
    assert!(matches!(P::convert_value_to_json(&DecodedValue::NegInt(-5)), JsonValue::Int(-5)));
    assert!(matches!(P::convert_value_to_json(&DecodedValue::Float64Bits(f64::NAN.to_bits())), JsonValue::Null));
    assert!(matches!(P::convert_value_to_json(&DecodedValue::InvalidStr(vec![0xff])), JsonValue::Null));
    let map = DecodedValue::Dictionary(vec![
        (DecodedValue::PosInt(1), DecodedValue::Boolean(true)),
        (DecodedValue::Str("k".to_string()), DecodedValue::Nil),
    ]);
    match P::convert_value_to_json(&map) {
        JsonValue::Object(entries) => {
            assert_eq!(entries.len(), 1);
            assert_eq!(entries[0].0, "k");
        }
        _ => panic!("expected an object"),
    }
    match P::convert_value_to_json(&DecodedValue::Ext(5, vec![1, 2])) {
        JsonValue::Object(entries) => {
            assert_eq!(entries[0].0, "ext_type");
            assert!(matches!(entries[0].1, JsonValue::Int(5)));
            assert_eq!(entries[1].0, "ext_data");
            assert!(matches!(&entries[1].1, JsonValue::Array(a) if a.len() == 2));
        }
        _ => panic!("expected an object"),
    }
}

#[test]
fn header_with_empty_payload_gives_empty_result() {
    let doc = "[{\"buffer\": {\"type\": \"Buffer\", \"data\": [204, 5]}, \"type\": 98}, {\"type\": \"Buffer\", \"data\": []}]";
    let blocks = P::process_document(doc).expect("not an error");
    assert_eq!(blocks.len(), 1);
    assert!(matches!(blocks[0].outcome, BlockOutcome::Empty));
}

#[test]
fn undecodable_bytes_fall_back_to_text_or_profile() {
    assert!(matches!(P::process_decompressed_data(&[0xdd]), BlockOutcome::Binary(p) if p.total_bytes == 1));
    assert!(matches!(P::process_decompressed_data("ć".as_bytes()), BlockOutcome::RawText(s) if s == "ć"));
    assert!(matches!(P::process_decompressed_data(&[0xdd, 0x05]), BlockOutcome::Recovered(v) if v.len() == 1));
    assert!(matches!(P::process_decompressed_data(&[]), BlockOutcome::Empty));
}

#[test]
fn envelope_skips_unpaired_elements() {
    let doc = "[{\"x\": 1}, {\"buffer\": {\"data\": [204, 1]}, \"type\": 98}, {\"data\": [300, 7]}]";
    let blocks = P::parse_input(doc).expect("one block");
    assert_eq!(blocks.len(), 1);
    assert_eq!(blocks[0].header_data, vec![204, 1]);
    assert_eq!(blocks[0].data, vec![44, 7]);
    assert_eq!(P::parse_input("{\"a\": 1}").err(), Some(StructuralError::NotAnArray));
    assert_eq!(P::parse_input("[{\"a\": 1}, {\"b\": 2}]").err(), Some(StructuralError::NoValidBlocks));
    assert_eq!(P::parse_input("[1]").err(), Some(StructuralError::TooFewElements));
}

#[test]
fn reencoded_block_is_ext_and_binary_array() {
    let block = MessagePackExt { format_tag: 98, header_data: vec![204, 1], data: vec![9] };
    assert_eq!(P::reserialize_to_msgpack(&block), vec![0x92, 0xd5, 98, 204, 1, 0xc4, 1, 9]);
    let other = MessagePackExt { format_tag: 5, header_data: vec![204, 1], data: vec![9] };
    assert_eq!(P::reserialize_to_msgpack(&other), vec![0x92, 0xd5, 5, 204, 1, 0xc4, 1, 9]);
}

#[test]
fn json_and_msgpack_conversions() {
    assert_eq!(json_to_msgpack("[1, 2]").unwrap(), vec![0x92, 1, 2]);
    assert_eq!(msgpack_to_json(&[0x92, 1, 2]).unwrap(), "[1,2]");
    assert_eq!(msgpack_to_json(&[0x81, 0xa1, b'a', 0xc3]).unwrap(), "{\"a\":true}");
    assert_eq!(json_to_msgpack("{").err(), Some(ConversionError::InvalidJson));
    assert_eq!(json_to_msgpack("{}").unwrap(), vec![0x80]);
    assert_eq!(json_to_msgpack("18446744073709551615").unwrap(), vec![0xcf, 255, 255, 255, 255, 255, 255, 255, 255]);
    assert_eq!(msgpack_to_json(&[0xdd]).err(), Some(ConversionError::InvalidMessagePack));
    assert_eq!(msgpack_to_json(&[0x81, 0x01, 0x02]).unwrap(), "{\"1\":2}");
    assert_eq!(msgpack_to_json(&[0x81, 0x90, 0x02]).err(), Some(ConversionError::NotRepresentable));
    assert_eq!(msgpack_to_json(&[0xa1, 0xff]).err(), Some(ConversionError::InvalidString));
}

#[test]
fn encoded_block_round_trips() {
    let block = encode_block("{\"name\": \"Test\", \"value\": [1, 2.5, null]}").expect("encodes");
    assert_eq!(block.format_tag, 98);
    let blocks = vec![block];
    let results = P::process_blocks(&blocks).expect("supported tag");
    match &results[0].outcome {
        BlockOutcome::Decoded(JsonValue::Object(entries)) => {
            assert_eq!(entries.len(), 2);
            assert!(matches!(&entries[0].1, JsonValue::Str(s) if s == "Test"));
            match &entries[1].1 {
                JsonValue::Array(a) => {
                    assert!(matches!(a[0], JsonValue::Int(1)));
                    assert!(matches!(a[1], JsonValue::Float64Bits(b) if f64::from_bits(b) == 2.5));
                    assert!(matches!(a[2], JsonValue::Null));
                }
                _ => panic!("expected an array"),
            }
        }
        _ => panic!("expected a decoded object"),
    }
}

#[test]
fn batch_aborts_on_later_unsupported_tag() {
    let good = encode_block("[1, 2]").unwrap();
    let mut bad = encode_block("\"x\"").unwrap();
    bad.format_tag = 99;
    let blocks = vec![good, bad];
    assert_eq!(P::process_blocks(&blocks).err(), Some(StructuralError::UnsupportedTag(99)));
}

#[test]
fn output_format_names_ignore_case() {
    assert_eq!(OutputFormat::from("HEX"), OutputFormat::Hex);
    assert_eq!(OutputFormat::from("Human"), OutputFormat::Human);
    assert_eq!(OutputFormat::from("binary"), OutputFormat::Binary);
    assert_eq!(OutputFormat::from("yaml"), OutputFormat::Json);
}

#[test]
fn input_formats_are_recognised() {
    let envelope = "[{\"buffer\": {\"data\": [204, 1]}, \"type\": 98}, {\"data\": [7]}]";
    assert_eq!(P::analyze_input_format(envelope), InputFormat::BlockArray);
    assert_eq!(P::analyze_input_format("[1, 2, 3]"), InputFormat::JsonArray);
    assert_eq!(P::analyze_input_format("{\"a\": 1}"), InputFormat::JsonObject);
    assert_eq!(P::analyze_input_format("deadbeef"), InputFormat::HexData);
    assert_eq!(P::analyze_input_format("Ãxyz!"), InputFormat::MessagePack);
    assert_eq!(P::analyze_input_format("[]"), InputFormat::BlockArray);
}

#[test]
fn inputs_become_blocks_by_format() {
    let json = P::process_input("{\"a\": true}").expect("one block");
    assert_eq!(json.len(), 1);
    assert_eq!(json[0].format_tag, 98);
    assert_eq!(json[0].header_data, vec![204, 4]);
    assert_eq!(json[0].data, vec![0x81, 0xa1, b'a', 0xc3]);
    let hex = P::process_input("de adbeef").expect("one block");
    assert_eq!(hex[0].data, vec![0xde, 0xad, 0xbe, 0xef]);
    assert_eq!(hex[0].header_data, vec![204, 4]);
    assert_eq!(P::process_input("a").err(), Some(StructuralError::InvalidHex));
    assert_eq!(P::process_input("xyz").err(), Some(StructuralError::InvalidDocument));
    let envelope = "[{\"buffer\": {\"data\": [204, 1]}, \"type\": 98}, {\"data\": [7]}]";
    assert_eq!(P::process_input(envelope).unwrap()[0].data, vec![7]);
}

#[test]
fn large_unsigned_integers_stay_numbers() {
    let bytes = [0xcf, 255, 255, 255, 255, 255, 255, 255, 255];
    assert_eq!(msgpack_to_json(&bytes).unwrap(), "18446744073709551615");
    match P::process_decompressed_data(&bytes) {
        BlockOutcome::Decoded(JsonValue::UInt(n)) => assert_eq!(n, u64::MAX),
        _ => panic!("expected an unsigned number"),
    }
}
