use gguf_analyzer::display::{format_value, Piece};
use gguf_analyzer::cli::{SetArgs, ValueType};
use gguf_analyzer::commands::set::{parse_value, plan_set, SetOutcome};
use gguf_analyzer::error::AppError;
use gguf_analyzer::format::MetadataValue;
use gguf_analyzer::gguf::{build_gguf_header, ParsedGguf};
use gguf_analyzer::metadata::Metadata;
use gguf_analyzer::tensor::{TensorInfo, TensorShape, TensorType};

fn fixture() -> Vec<u8> {
    let mut metadata = Metadata::new();
    metadata.insert("general.architecture".to_string(), MetadataValue::String("test-arch".to_string()));
    metadata.insert("general.name".to_string(), MetadataValue::String("test-model".to_string()));
    metadata.insert("llm.context_length".to_string(), MetadataValue::U32(512));
    let shape = TensorShape::new(vec![4, 8]).expect("valid shape");
    let tensor = TensorInfo::new("token_embd.weight".to_string(), shape, TensorType::F32, 0);
    let mut bytes = build_gguf_header(&metadata, &[tensor], 32).expect("header");
    bytes.extend_from_slice(&[0u8; 128]);
    bytes
}

/// The float reading of `raw` that the binary hands to the library.
fn float_bits(raw: &str, vtype: &ValueType) -> Option<u64> {
    match vtype {
        ValueType::F32 => raw.parse::<f32>().ok().map(|f| f.to_bits() as u64),
        ValueType::F64 => raw.parse::<f64>().ok().map(|f| f.to_bits()),
        _ => None,
    }
}

fn parse(raw: &str, vtype: &ValueType) -> Result<MetadataValue, AppError> {
    parse_value(raw, vtype, float_bits(raw, vtype))
}

fn args(key: &str, value: &str, vtype: ValueType, force: bool, dry_run: bool) -> SetArgs {
    SetArgs {
        file: "model.gguf".to_string(),
        key: key.to_string(),
        value: value.to_string(),
        value_type: vtype,
        output: "out.gguf".to_string(),
        force,
        backup: false,
        dry_run,
    }
}

/// Run `set` on the fixture and read back the file it would write.
fn run_set(a: &SetArgs) -> Result<ParsedGguf, AppError> {
    let src = fixture();
    let mut gguf = ParsedGguf::from_bytes(a.file.clone(), &src)?;
    let float = float_bits(&a.value, &a.value_type);
    match plan_set(&mut gguf, a, float, false)? {
        SetOutcome::Write { header } => {
            let mut out = header;
            out.extend_from_slice(&src[gguf.tensor_data_offset as usize..]);
            ParsedGguf::from_bytes(a.output.clone(), &out)
        }
        SetOutcome::DryRun { .. } => panic!("not a dry run"),
    }
}

#[test]
fn parse_u32() {
    assert_eq!(parse("42", &ValueType::U32).unwrap(), MetadataValue::U32(42));
}

#[test]
fn parse_string() {
    assert_eq!(parse("hello", &ValueType::String).unwrap(), MetadataValue::String("hello".to_string()));
}

#[test]
fn parse_bool_variants() {
    for s in &["true", "1", "yes"] {
        assert_eq!(parse(s, &ValueType::Bool).unwrap(), MetadataValue::Bool(true));
    }
    for s in &["false", "0", "no"] {
        assert_eq!(parse(s, &ValueType::Bool).unwrap(), MetadataValue::Bool(false));
    }
}

#[test]
fn parse_bad_u32_errors() {
    assert!(parse("not_a_number", &ValueType::U32).is_err());
}

#[test]
fn parse_value_u8() { assert_eq!(parse("255", &ValueType::U8).unwrap(), MetadataValue::U8(255)); }
#[test]
fn parse_value_i8() { assert_eq!(parse("-128", &ValueType::I8).unwrap(), MetadataValue::I8(-128)); }
#[test]
fn parse_value_u16() { assert_eq!(parse("65535", &ValueType::U16).unwrap(), MetadataValue::U16(65535)); }
#[test]
fn parse_value_i16() { assert_eq!(parse("-1", &ValueType::I16).unwrap(), MetadataValue::I16(-1)); }
#[test]
fn parse_value_u32() { assert_eq!(parse("42", &ValueType::U32).unwrap(), MetadataValue::U32(42)); }
#[test]
fn parse_value_i32() { assert_eq!(parse("-42", &ValueType::I32).unwrap(), MetadataValue::I32(-42)); }
#[test]
fn parse_value_u64() { assert_eq!(parse("0", &ValueType::U64).unwrap(), MetadataValue::U64(0)); }
#[test]
fn parse_value_i64() { assert_eq!(parse("-1", &ValueType::I64).unwrap(), MetadataValue::I64(-1)); }
#[test]
fn parse_value_f32() {
    assert_eq!(parse("1.5", &ValueType::F32).unwrap(), MetadataValue::F32(1.5f32.to_bits()));
}
#[test]
fn parse_value_f64() {
    assert_eq!(parse("2.5", &ValueType::F64).unwrap(), MetadataValue::F64(2.5f64.to_bits()));
}
#[test]
fn parse_value_bool_true_aliases() {
    for s in &["true", "1", "yes"] {
        assert_eq!(parse(s, &ValueType::Bool).unwrap(), MetadataValue::Bool(true), "alias={s}");
    }
}
#[test]
fn parse_value_bool_false_aliases() {
    for s in &["false", "0", "no"] {
        assert_eq!(parse(s, &ValueType::Bool).unwrap(), MetadataValue::Bool(false), "alias={s}");
    }
}
#[test]
fn parse_value_string() {
    assert_eq!(
        parse("hello world", &ValueType::String).unwrap(),
        MetadataValue::String("hello world".to_string()),
    );
}
#[test]
fn parse_value_u8_overflow_errors() {
    assert!(parse("256", &ValueType::U8).is_err());
}
#[test]
fn parse_value_i8_underflow_errors() {
    assert!(parse("-129", &ValueType::I8).is_err());
}
#[test]
fn parse_value_bad_bool_errors() {
    assert!(parse("maybe", &ValueType::Bool).is_err());
}
#[test]
fn parse_value_bad_u32_errors() {
    assert!(parse("not_a_number", &ValueType::U32).is_err());
}

#[test]
fn parse_value_accepts_integer_edge_forms() {
    assert_eq!(parse("+7", &ValueType::U8).unwrap(), MetadataValue::U8(7));
    assert_eq!(parse("0042", &ValueType::U16).unwrap(), MetadataValue::U16(42));
    assert_eq!(parse("18446744073709551615", &ValueType::U64).unwrap(), MetadataValue::U64(u64::MAX));
    assert_eq!(parse("-9223372036854775808", &ValueType::I64).unwrap(), MetadataValue::I64(i64::MIN));
    assert!(parse("-0", &ValueType::U8).is_err());
    assert_eq!(parse("-0", &ValueType::I8).unwrap(), MetadataValue::I8(0));
    assert!(parse("-1", &ValueType::U8).is_err());
    assert!(parse("", &ValueType::I32).is_err());
    assert!(parse("+", &ValueType::I32).is_err());
    assert!(parse(" 1", &ValueType::I32).is_err());
    assert!(parse("18446744073709551616", &ValueType::U64).is_err());
}

#[test]
fn parse_value_bool_is_case_insensitive() {
    assert_eq!(parse("TRUE", &ValueType::Bool).unwrap(), MetadataValue::Bool(true));
    assert_eq!(parse("No", &ValueType::Bool).unwrap(), MetadataValue::Bool(false));
}

#[test]
fn parse_value_error_names_value_and_type() {
    match parse("abc", &ValueType::I16) {
        Err(AppError::TypeParse { value, type_str, reason }) => {
            assert_eq!(value, "abc");
            assert_eq!(type_str, "i16");
            assert_eq!(reason, "expected i16");
        }
        other => panic!("unexpected {other:?}"),
    }
    assert!(parse("x", &ValueType::F32).is_err());
}

#[test]
fn set_existing_key_roundtrip() {
    let a = args("general.name", "new-model-name", ValueType::String, true, false);
    let g = run_set(&a).expect("set should succeed");
    assert_eq!(g.metadata.get("general.name").expect("key must exist"), &MetadataValue::String("new-model-name".to_string()));
}

#[test]
fn set_u32_key_roundtrip() {
    let a = args("llm.context_length", "1024", ValueType::U32, true, false);
    let g = run_set(&a).expect("set should succeed");
    assert_eq!(g.metadata.get("llm.context_length").expect("key must exist"), &MetadataValue::U32(1024));
}

#[test]
fn set_missing_key_without_force_errors() {
    let a = args("nonexistent.key", "value", ValueType::String, false, false);
    assert!(matches!(run_set(&a), Err(AppError::KeyNotFound { .. })));
}

#[test]
fn set_missing_key_with_force_creates_key() {
    let a = args("new.key", "created", ValueType::String, true, false);
    let g = run_set(&a).expect("force-create should succeed");
    assert!(g.metadata.contains_key("new.key"));
    assert_eq!(g.metadata.get("new.key").unwrap(), &MetadataValue::String("created".to_string()));
    assert_eq!(g.metadata.len(), 4);
    assert_eq!(g.tensor_count, 1);
}

#[test]
fn set_dry_run_does_not_write_file() {
    let src = fixture();
    let mut gguf = ParsedGguf::from_bytes("model.gguf".to_string(), &src).unwrap();
    let a = args("general.name", "dry", ValueType::String, true, true);
    match plan_set(&mut gguf, &a, None, false).expect("dry-run should return Ok") {
        SetOutcome::DryRun { old, new } => {
            assert!(old.is_some());
            assert_eq!(new.len(), 1);
        }
        SetOutcome::Write { .. } => panic!("dry-run must not write"),
    }
    assert_eq!(gguf.metadata.get("general.name").unwrap(), &MetadataValue::String("test-model".to_string()));
}

#[test]
fn set_refuses_existing_output_without_force() {
    let src = fixture();
    let mut gguf = ParsedGguf::from_bytes("model.gguf".to_string(), &src).unwrap();
    let a = args("general.name", "x", ValueType::String, false, false);
    match plan_set(&mut gguf, &a, None, true) {
        Err(AppError::OutputExists { path }) => assert_eq!(path, "out.gguf"),
        other => panic!("unexpected {other:?}"),
    }
}

#[test]
fn set_keeps_tensor_data_offset_aligned() {
    let a = args("general.name", "a much longer model name than before", ValueType::String, true, false);
    let g = run_set(&a).unwrap();
    assert_eq!(g.tensor_data_offset % 32, 0);
    assert_eq!(g.tensor_infos.len(), 1);
}

#[test]
fn rendered_scalars_parse_back() {
    let cases = vec![
        (MetadataValue::U8(255), ValueType::U8),
        (MetadataValue::I16(-500), ValueType::I16),
        (MetadataValue::U64(u64::MAX), ValueType::U64),
        (MetadataValue::I64(i64::MIN), ValueType::I64),
        (MetadataValue::Bool(false), ValueType::Bool),
        (MetadataValue::String("hello world".to_string()), ValueType::String),
    ];
    for (v, t) in cases {
        let pieces = format_value(&v, 8);
        let text = match pieces.as_slice() {
            [Piece::Text(s)] => s.clone(),
            other => panic!("not one text piece: {other:?}"),
        };
        assert_eq!(parse(&text, &t).unwrap(), v);
    }
}
