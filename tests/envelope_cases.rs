use lz4_messagepack::envelope::StructuralError;
use lz4_messagepack::processor::{BlockOutcome, BlockResult};
use lz4_messagepack::size_hint::size_header;
use lz4_messagepack::value::JsonValue;
use lz4_messagepack::LZ4MessagePackProcessor;
use rmpv::Value;

fn bytes_list(b: &[u8]) -> String {
    b.iter().map(|x| x.to_string()).collect::<Vec<_>>().join(", ")
}

fn block_pair(tag: u64, header: &[u8], payload: &[u8]) -> String {
    format!(
        "{{\"buffer\": {{\"type\": \"Buffer\", \"data\": [{}]}}, \"type\": {}}}, {{\"type\": \"Buffer\", \"data\": [{}]}}",
        bytes_list(header),
        tag,
        bytes_list(payload)
    )
}

fn envelope(pairs: &[String]) -> String {
    format!("[{}]", pairs.join(", "))
}

fn compressed_pair(value: &Value, tag: u64) -> String {
    let mut buffer = Vec::new();
    rmpv::encode::write_value(&mut buffer, value).unwrap();
    let compressed = lz4::block::compress(&buffer, None, false).unwrap_or_default();
    block_pair(tag, &size_header(buffer.len()), &compressed)
}

fn process(doc: &str) -> Result<Vec<BlockResult>, StructuralError> {
    LZ4MessagePackProcessor::process_document(doc)
}

fn field<'a>(j: &'a JsonValue, key: &str) -> Option<&'a JsonValue> {
    match j {
        JsonValue::Object(entries) => entries.iter().rev().find(|(k, _)| k == key).map(|(_, v)| v),
        _ => None,
    }
}

fn decoded(r: &BlockResult) -> &JsonValue {
    match &r.outcome {
        BlockOutcome::Decoded(j) => j,
        _ => panic!("block did not decode as a document"),
    }
}

fn is_str(j: Option<&JsonValue>, s: &str) -> bool {
    matches!(j, Some(JsonValue::Str(t)) if t == s)
}

fn problem_payload() -> Vec<u8> {
    vec![
        244, 68, 149, 217, 63, 104, 116, 116, 112, 115, 58, 47, 47, 97, 112, 105, 46, 120, 109,
        111, 98, 113, 97, 46, 99, 111, 109, 47, 101, 114, 114, 111, 114, 115, 47, 118, 97, 108,
        105, 100, 97, 116, 105, 111, 110, 47, 109, 105, 115, 115, 105, 110, 103, 45, 114, 101,
        113, 117, 105, 114, 101, 100, 45, 102, 105, 101, 108, 100, 184, 80, 104, 111, 110, 101,
        32, 110, 117, 109, 98, 101, 114, 32, 105, 115, 32, 31, 0, 175, 205, 1, 144, 217, 63, 84,
        104, 101, 32, 112, 33, 0, 4, 240, 21, 32, 97, 110, 100, 32, 99, 97, 110, 110, 111, 116,
        32, 98, 101, 32, 101, 109, 112, 116, 121, 32, 111, 114, 32, 119, 104, 105, 116, 101, 115,
        112, 97, 99, 101, 46, 184, 150, 0, 240, 5, 47, 118, 49, 47, 101, 110, 100, 45, 117, 115,
        101, 114, 115, 63, 112, 104, 111, 110, 101, 61,
    ]
}

#[test]
fn test_empty_data() {
    let doc = envelope(&[block_pair(98, &[204, 0], &[])]);
    let result = process(&doc).expect("an empty payload is not an error");
    assert_eq!(result.len(), 1);
    assert!(matches!(result[0].outcome, BlockOutcome::Empty));
}

#[test]
fn test_invalid_type() {
    let doc = envelope(&[block_pair(99, &[204, 100], &[1, 2, 3, 4, 5])]);
    let result = process(&doc);
    assert!(result.is_err(), "Should fail with invalid extension type");
    assert_eq!(result.err(), Some(StructuralError::UnsupportedTag(99)));
}

#[test]
fn test_malformed_json() {
    let result = process("{ this is not valid JSON }");
    assert!(result.is_err(), "Should fail with malformed JSON");
    assert_eq!(result.err(), Some(StructuralError::InvalidDocument));
}

#[test]
fn test_large_data() {
    let large: Vec<u8> = (0..1000).map(|i| (i % 256) as u8).collect();
    let doc = envelope(&[block_pair(98, &[204, 232], &large)]);
    let result = process(&doc);
    assert!(result.is_ok() || result.is_err(), "Should handle large data without crashing");
    assert_eq!(result.unwrap().len(), 1);
}

#[test]
fn test_cases_test_valid_data() {
    let doc = envelope(&[block_pair(98, &[204, 184], &problem_payload())]);
    let result = process(&doc);
    assert!(result.is_ok(), "Should successfully process valid data");
    let blocks = result.unwrap();
    let value = decoded(&blocks[0]);
    assert!(field(value, "title").is_some(), "Should contain 'title' field");
    assert!(is_str(field(value, "title"), "Phone number is required"), "Should contain expected title");
    assert!(field(value, "status").is_some(), "Should contain 'status' field");
    assert!(matches!(field(value, "status"), Some(JsonValue::Int(400))), "Should contain expected status code");
}

#[test]
fn test_different_formats() {
    let doc = envelope(&[block_pair(98, &[204, 184], &problem_payload())]);
    let blocks = process(&doc).expect("valid data should succeed");
    assert!(!blocks[0].msgpack.is_empty(), "re-encoded bytes should be present");
    assert!(matches!(blocks[0].outcome, BlockOutcome::Decoded(_)), "a readable value should be present");
    let hex: String = blocks[0].msgpack.iter().map(|b| format!("{:02x}", b)).collect();
    assert!(hex.chars().all(|c| c.is_ascii_hexdigit()), "HEX should only contain hexadecimal characters");
}

#[test]
fn test_varying_buffer_sizes() {
    let small = envelope(&[block_pair(98, &[204, 10], &[1, 2, 3, 4, 5])]);
    let small_result = process(&small);
    let large_data: Vec<u8> = (0..10000).map(|i| (i % 256) as u8).collect();
    let large = envelope(&[block_pair(98, &[204, 240], &large_data)]);
    let large_result = process(&large);
    assert!(small_result.is_ok() || small_result.is_err(), "Should handle small buffer");
    assert!(large_result.is_ok() || large_result.is_err(), "Should handle large buffer");
}

#[test]
fn test_output_formats() {
    let doc = envelope(&[block_pair(98, &[204, 5], &[1, 2, 3, 4, 5])]);
    let blocks = process(&doc).expect("a malformed payload stays local to its block");
    assert_eq!(blocks.len(), 1);
}

#[test]
fn test_invalid_data() {
    let doc = "[{\"buffer\": {\"type\": \"Buffer\", \"data\": [204, 10]}, \"type\": 98}]";
    assert_eq!(process(doc).err(), Some(StructuralError::TooFewElements));
}

#[test]
fn test_large_buffer() {
    let size = 10 * 1024 * 1024;
    assert_eq!(size, 10485760);
}

#[test]
fn test_multiple_lz4_blocks() {
    let values = vec![
        Value::Array(vec![Value::from(1), Value::from(2), Value::from(3)]),
        Value::Map(vec![
            (Value::from("name"), Value::from("Test")),
            (Value::from("value"), Value::from(42)),
        ]),
        Value::from("Caracteres especiais: áéíóú çãõ"),
        Value::Binary(vec![0, 1, 2, 3, 4, 5]),
        Value::from(9223372036854775807i64),
        Value::Array(vec![Value::from(true), Value::from(false), Value::from(true)]),
        Value::Array(vec![Value::from("primeiro"), Value::from("segundo"), Value::from("terceiro")]),
        Value::Map(vec![
            (Value::from("user"), Value::from("admin")),
            (
                Value::from("permissions"),
                Value::Array(vec![Value::from("read"), Value::from("write"), Value::from("execute")]),
            ),
            (
                Value::from("metadata"),
                Value::Map(vec![
                    (Value::from("created"), Value::from("2023-04-12")),
                    (Value::from("modified"), Value::from("2023-04-13")),
                ]),
            ),
        ]),
    ];
    let pairs: Vec<String> = values.iter().map(|v| compressed_pair(v, 98)).collect();
    let blocks = process(&envelope(&pairs)).expect("Failed to process multiple blocks");
    assert_eq!(blocks.len(), 8, "Expected exactly 8 blocks, got {}", blocks.len());
    assert!(matches!(decoded(&blocks[0]), JsonValue::Array(a) if a.len() == 3));
    assert!(is_str(field(decoded(&blocks[1]), "name"), "Test"));
    assert!(matches!(decoded(&blocks[2]), JsonValue::Str(s) if s.contains("caracteres") || s.contains("Caracteres")));
    assert!(matches!(decoded(&blocks[3]), JsonValue::Array(a) if a.len() == 6));
    assert!(matches!(decoded(&blocks[4]), JsonValue::Int(9223372036854775807)));
    assert!(matches!(decoded(&blocks[6]), JsonValue::Array(a) if is_str(a.first(), "primeiro")));
    assert!(is_str(field(decoded(&blocks[7]), "user"), "admin"), "Missing expected content 'admin' from block 8");
}

#[test]
fn test_mixed_types_multi_blocks() {
    let pairs = vec![
        compressed_pair(&Value::Array(vec![Value::from(1), Value::from(2)]), 98),
        compressed_pair(&Value::from("Este bloco tem tipo não suportado"), 99),
        compressed_pair(&Value::Map(vec![(Value::from("key"), Value::from("value"))]), 98),
    ];
    let result = process(&envelope(&pairs));
    assert!(result.is_err(), "Should fail with unsupported extension type");
    assert_eq!(result.err(), Some(StructuralError::UnsupportedTag(99)));
    let first = process(&envelope(&pairs[0..1]));
    assert!(first.is_ok(), "Should process just the first valid block");
}

#[test]
fn test_large_multi_blocks() {
    let pairs: Vec<String> = (0..10)
        .map(|i| {
            let items: Vec<Value> = (0..100).map(|j| Value::from(i * 100 + j)).collect();
            compressed_pair(&Value::Array(items), 98)
        })
        .collect();
    let blocks = process(&envelope(&pairs)).expect("Failed to process large multi-blocks");
    assert_eq!(blocks.len(), 10, "Expected exactly 10 blocks, got {}", blocks.len());
    match decoded(&blocks[0]) {
        JsonValue::Array(a) => {
            assert_eq!(a.len(), 100);
            assert!(matches!(a[42], JsonValue::Int(42)));
            assert!(matches!(a[99], JsonValue::Int(99)));
        }
        _ => panic!("first block should be an array"),
    }
    match decoded(&blocks[9]) {
        JsonValue::Array(a) => assert!(matches!(a[0], JsonValue::Int(900)) && matches!(a[99], JsonValue::Int(999))),
        _ => panic!("last block should be an array"),
    }
}

fn decode_single(value: &Value) -> BlockResult {
    let mut blocks = process(&envelope(&[compressed_pair(value, 98)])).expect("should succeed");
    assert_eq!(blocks.len(), 1);
    blocks.remove(0)
}

#[test]
fn test_simple_array() {
    let value = Value::Array((1..=5).map(Value::from).collect());
    let r = decode_single(&value);
    assert!(matches!(decoded(&r), JsonValue::Array(a) if a.len() == 5));
}

#[test]
fn test_nested_objects() {
    let value = Value::Map(vec![
        (Value::from("name"), Value::from("Product")),
        (Value::from("price"), Value::F64(29.99)),
        (Value::from("in_stock"), Value::from(true)),
        (Value::from("tags"), Value::Array(vec![Value::from("electronics"), Value::from("gadget")])),
        (
            Value::from("details"),
            Value::Map(vec![
                (Value::from("manufacturer"), Value::from("Example Corp")),
                (Value::from("model"), Value::from("X123")),
                (
                    Value::from("dimensions"),
                    Value::Map(vec![
                        (Value::from("width"), Value::from(10)),
                        (Value::from("height"), Value::from(5)),
                        (Value::from("depth"), Value::from(2)),
                    ]),
                ),
            ]),
        ),
    ]);
    let r = decode_single(&value);
    let j = decoded(&r);
    assert!(is_str(field(j, "name"), "Product"));
    assert!(matches!(field(j, "price"), Some(JsonValue::Float64Bits(b)) if f64::from_bits(*b) == 29.99));
    assert!(is_str(field(field(j, "details").unwrap(), "model"), "X123"));
}

#[test]
fn test_mixed_types() {
    let value = Value::Array(vec![
        Value::from(42),
        Value::from("string value"),
        Value::from(true),
        Value::Nil,
        Value::Map(vec![(Value::from("key"), Value::from("value"))]),
    ]);
    let r = decode_single(&value);
    assert!(matches!(decoded(&r), JsonValue::Array(a) if a.len() == 5 && matches!(a[3], JsonValue::Null)));
}

#[test]
fn test_special_characters() {
    let texts = [
        "Caracteres especiais: áéíóú àèìòù âêîôû ãõ ç ñ",
        "特殊文字: 漢字 カタカナ ひらがな",
        "Emoji: 😀 🎉 🌍 🚀",
        "Symbols: © ® ™ € ¥ £",
    ];
    let value = Value::Array(texts.iter().map(|t| Value::from(*t)).collect());
    let r = decode_single(&value);
    match decoded(&r) {
        JsonValue::Array(a) => {
            for (item, text) in a.iter().zip(texts.iter()) {
                assert!(matches!(item, JsonValue::Str(s) if s == text));
            }
        }
        _ => panic!("expected an array"),
    }
}

#[test]
fn test_large_numbers() {
    let value = Value::Array(vec![
        Value::from(1234567890123456789i64),
        Value::from(-987654321098765432i64),
        Value::F64(3.141592653589793),
        Value::F64(-0.000000000000001),
    ]);
    let r = decode_single(&value);
    match decoded(&r) {
        JsonValue::Array(a) => {
            assert!(matches!(a[0], JsonValue::Int(1234567890123456789)));
            assert!(matches!(a[1], JsonValue::Int(-987654321098765432)));
            assert!(matches!(a[2], JsonValue::Float64Bits(b) if f64::from_bits(b) == 3.141592653589793));
        }
        _ => panic!("expected an array"),
    }
}

#[test]
fn test_complex_validation() {
    let error = |f: &str, m: &str| Value::Map(vec![(Value::from("field"), Value::from(f)), (Value::from("message"), Value::from(m))]);
    let value = Value::Array(vec![
        Value::from("https://api.example.com/errors/validation"),
        Value::from("Validation Error"),
        Value::from(400),
        Value::Map(vec![(
            Value::from("errors"),
            Value::Array(vec![
                error("username", "Username is required"),
                error("email", "Invalid email format"),
                error("password", "Password must be at least 8 characters"),
            ]),
        )]),
        Value::from("/api/v1/users"),
    ]);
    let r = decode_single(&value);
    // The fourth item is an object, not a string: the record shape does not apply.
    assert!(matches!(decoded(&r), JsonValue::Array(a) if a.len() == 5));
}

#[test]
fn test_binary_data() {
    let value = Value::Binary((0u8..32).collect());
    let r = decode_single(&value);
    match decoded(&r) {
        JsonValue::Array(a) => {
            assert_eq!(a.len(), 32);
            assert!(matches!(a[31], JsonValue::Int(31)));
        }
        _ => panic!("binary data becomes an array of byte values"),
    }
}

#[test]
fn test_extended_types() {
    let value = Value::Map(vec![
        (Value::from("timestamp"), Value::from(1672531200000i64)),
        (Value::from("uuid"), Value::from("550e8400-e29b-41d4-a716-446655440000")),
        (Value::from("binary"), Value::Binary(vec![1, 0, 1, 0, 1])),
        (
            Value::from("array"),
            Value::Array(vec![Value::from(1), Value::from("two"), Value::from(true), Value::Nil]),
        ),
        (
            Value::from("nested"),
            Value::Map(vec![(
                Value::from("level1"),
                Value::Map(vec![(
                    Value::from("level2"),
                    Value::Map(vec![(Value::from("level3"), Value::from("deep"))]),
                )]),
            )]),
        ),
    ]);
    let r = decode_single(&value);
    let j = decoded(&r);
    assert!(matches!(field(j, "timestamp"), Some(JsonValue::Int(1672531200000))));
    let deep = field(field(field(field(j, "nested").unwrap(), "level1").unwrap(), "level2").unwrap(), "level3");
    assert!(is_str(deep, "deep"));
}

fn s(text: &str) -> Value {
    Value::from(text)
}

fn m(entries: Vec<(&str, Value)>) -> Value {
    Value::Map(entries.into_iter().map(|(k, v)| (Value::from(k), v)).collect())
}

fn strs(items: &[&str]) -> Value {
    Value::Array(items.iter().map(|t| Value::from(*t)).collect())
}

#[test]
fn test_complex_real_world_data() {
    let value = Value::Array(vec![m(vec![
        ("full name", s("Felix Hills")),
        (
            "address",
            m(vec![
                ("street", s("87304 Pfeffer Walk")),
                ("city", s("Kilmacanoge")),
                ("coordinates", m(vec![("latitude", Value::F64(53.1824)), ("longitude", Value::F64(-6.1334))])),
            ]),
        ),
        (
            "contact",
            m(vec![
                ("email", s("felix.hills@example.com")),
                ("phone", s("+1-555-123-4567")),
                ("social", m(vec![("twitter", s("@felixhills")), ("linkedin", s("linkedin.com/in/felixhills"))])),
            ]),
        ),
        (
            "employment",
            m(vec![
                ("company", s("TechCorp Inc.")),
                ("position", s("Senior Software Engineer")),
                ("department", s("Research & Development")),
                ("salary", Value::from(125000)),
                ("start_date", s("2020-03-15")),
                ("benefits", strs(&["Health Insurance", "401k", "Stock Options"])),
            ]),
        ),
        (
            "education",
            Value::Array(vec![
                m(vec![
                    ("institution", s("MIT")),
                    ("degree", s("PhD in Computer Science")),
                    ("graduation_year", Value::from(2018)),
                    ("gpa", Value::F64(3.9)),
                ]),
                m(vec![
                    ("institution", s("Stanford University")),
                    ("degree", s("MSc in Artificial Intelligence")),
                    ("graduation_year", Value::from(2015)),
                    ("gpa", Value::F64(3.8)),
                ]),
            ]),
        ),
        (
            "skills",
            m(vec![
                ("programming", strs(&["Rust", "Python", "Go", "JavaScript"])),
                ("databases", strs(&["PostgreSQL", "MongoDB", "Redis"])),
                ("cloud", strs(&["AWS", "GCP", "Azure"])),
            ]),
        ),
        (
            "projects",
            Value::Array(vec![
                m(vec![
                    ("name", s("Distributed Systems Framework")),
                    ("description", s("A high-performance distributed computing framework")),
                    ("technologies", strs(&["Rust", "gRPC", "Kubernetes"])),
                    ("status", s("Active")),
                    ("start_date", s("2021-01-01")),
                    ("team_size", Value::from(5)),
                ]),
                m(vec![
                    ("name", s("AI Model Training Pipeline")),
                    ("description", s("Automated ML model training and deployment system")),
                    ("technologies", strs(&["Python", "TensorFlow", "Docker"])),
                    ("status", s("Completed")),
                    ("start_date", s("2020-06-15")),
                    ("end_date", s("2021-03-20")),
                    ("team_size", Value::from(3)),
                ]),
            ]),
        ),
        (
            "preferences",
            m(vec![
                ("theme", s("dark")),
                ("language", s("en-US")),
                ("timezone", s("UTC+1")),
                ("notifications", m(vec![("email", Value::from(true)), ("push", Value::from(true)), ("sms", Value::from(false))])),
            ]),
        ),
    ])]);
    let r = decode_single(&value);
    match decoded(&r) {
        JsonValue::Array(a) => {
            assert_eq!(a.len(), 1);
            assert!(is_str(field(&a[0], "full name"), "Felix Hills"));
            assert!(matches!(field(field(&a[0], "employment").unwrap(), "salary"), Some(JsonValue::Int(125000))));
        }
        _ => panic!("expected an array"),
    }
}
