use gguf_analyzer::pattern::glob_source;
use gguf_analyzer::commands::meta::meta_rows;
use gguf_analyzer::display::{format_type, format_value, Piece};
use gguf_analyzer::format::MetadataValue;
use gguf_analyzer::gguf::{build_gguf_header, ParsedGguf};
use gguf_analyzer::metadata::Metadata;
use gguf_analyzer::pattern::match_flags;
use gguf_analyzer::tensor::{TensorInfo, TensorShape, TensorType};

fn fixture() -> Vec<u8> {
    let mut metadata = Metadata::new();
    metadata.insert("general.architecture".to_string(), MetadataValue::String("test-arch".to_string()));
    metadata.insert("general.name".to_string(), MetadataValue::String("test-model".to_string()));
    metadata.insert("llm.context_length".to_string(), MetadataValue::U32(512));
    let shape = TensorShape::new(vec![4, 8]).expect("valid shape");
    let tensor = TensorInfo::new("token_embd.weight".to_string(), shape, TensorType::F32, 0);
    let mut bytes = build_gguf_header(&metadata, &[tensor], 32).expect("header");
    bytes.extend_from_slice(&[0u8; 128]);
    bytes
}

fn open() -> ParsedGguf {
    ParsedGguf::from_bytes("fixture.gguf".to_string(), &fixture()).expect("open fixture")
}

fn render(pieces: &[Piece]) -> String {
    let mut s = String::new();
    for p in pieces {
        match p {
            Piece::Text(t) => s.push_str(t),
            Piece::F32(b) => s.push_str(&format!("{}", f32::from_bits(*b))),
            Piece::F64(b) => s.push_str(&format!("{}", f64::from_bits(*b))),
        }
    }
    s
}

fn fv(v: &MetadataValue, limit: usize) -> String {
    render(&format_value(v, limit))
}

/// The keys of the `meta` table for `filter`, as the subcommand selects them.
fn filtered_keys(gguf: &ParsedGguf, filter: &str) -> Vec<String> {
    let names: Vec<&str> = gguf.metadata.entries().iter().map(|e| e.0.as_str()).collect();
    let keep = match_flags(&names, Some(filter), false).expect("pattern compiles");
    meta_rows(&gguf.metadata, &keep, 8).into_iter().map(|r| r.key).collect()
}

#[test]
fn meta_all_keys_present() {
    let gguf = open();
    assert!(gguf.metadata.contains_key("general.architecture"));
    assert!(gguf.metadata.contains_key("general.name"));
    assert!(gguf.metadata.contains_key("llm.context_length"));
}

#[test]
fn meta_string_value_roundtrips() {
    let gguf = open();
    let val = gguf.metadata.get("general.name").expect("key exists");
    assert_eq!(fv(val, 8), "test-model");
    assert_eq!(format_type(val), "string");
}

#[test]
fn meta_u32_value_roundtrips() {
    let gguf = open();
    let val = gguf.metadata.get("llm.context_length").expect("key exists");
    assert_eq!(fv(val, 8), "512");
    assert_eq!(format_type(val), "u32");
}

#[test]
fn meta_glob_filter_matches_prefix() {
    assert_eq!(filtered_keys(&open(), "general.*").len(), 2, "general.* matches 2 keys");
}

#[test]
fn meta_glob_filter_matches_exact() {
    assert_eq!(filtered_keys(&open(), "general.name").len(), 1);
}

#[test]
fn meta_glob_filter_no_match_returns_empty() {
    assert!(filtered_keys(&open(), "tokenizer.*").is_empty());
}

#[test]
fn meta_glob_is_case_insensitive() {
    assert_eq!(filtered_keys(&open(), "GENERAL.*").len(), 2);
}

#[test]
fn format_type_covers_all_scalars() {
    assert_eq!(format_type(&MetadataValue::U8(0)), "u8");
    assert_eq!(format_type(&MetadataValue::I8(0)), "i8");
    assert_eq!(format_type(&MetadataValue::U16(0)), "u16");
    assert_eq!(format_type(&MetadataValue::I16(0)), "i16");
    assert_eq!(format_type(&MetadataValue::U32(0)), "u32");
    assert_eq!(format_type(&MetadataValue::I32(0)), "i32");
    assert_eq!(format_type(&MetadataValue::F32(0.0f32.to_bits())), "f32");
    assert_eq!(format_type(&MetadataValue::U64(0)), "u64");
    assert_eq!(format_type(&MetadataValue::I64(0)), "i64");
    assert_eq!(format_type(&MetadataValue::F64(0.0f64.to_bits())), "f64");
    assert_eq!(format_type(&MetadataValue::Bool(true)), "bool");
    assert_eq!(format_type(&MetadataValue::String(String::new())), "string");
}

#[test]
fn format_value_covers_all_scalars() {
    assert_eq!(fv(&MetadataValue::U8(255), 8), "255");
    assert_eq!(fv(&MetadataValue::I8(-1), 8), "-1");
    assert_eq!(fv(&MetadataValue::U16(1000), 8), "1000");
    assert_eq!(fv(&MetadataValue::I16(-500), 8), "-500");
    assert_eq!(fv(&MetadataValue::U32(99999), 8), "99999");
    assert_eq!(fv(&MetadataValue::I32(-99999), 8), "-99999");
    assert_eq!(fv(&MetadataValue::U64(u64::MAX), 8), u64::MAX.to_string());
    assert_eq!(fv(&MetadataValue::I64(i64::MIN), 8), i64::MIN.to_string());
    assert_eq!(fv(&MetadataValue::Bool(false), 8), "false");
    assert_eq!(fv(&MetadataValue::Bool(true), 8), "true");
    assert_eq!(fv(&MetadataValue::String("hello world".to_string()), 8), "hello world");
}

#[test]
fn meta_rows_are_sorted_and_complete() {
    let gguf = open();
    let keep = vec![true; gguf.metadata.len()];
    let rows = meta_rows(&gguf.metadata, &keep, 8);
    let keys: Vec<&str> = rows.iter().map(|r| r.key.as_str()).collect();
    assert_eq!(keys, vec!["general.architecture", "general.name", "llm.context_length"]);
    assert_eq!(rows[2].kind, "u32");
    assert_eq!(render(&rows[2].value), "512");
}

#[test]
fn no_filter_keeps_everything() {
    let keep = match_flags(&["A", "b"], None, false).unwrap();
    assert_eq!(keep, vec![true, true]);
}

#[test]
fn bad_pattern_is_an_error() {
    assert!(match_flags(&["a"], Some("[unclosed"), false).is_err());
}

#[test]
fn plain_filters_match_whole_lowercase_names() {
    assert_eq!(match_flags(&["Alpha.X", "alpha.x.y", "beta"], Some("ALPHA.x"), false).unwrap(), vec![true, false, false]);
    assert_eq!(match_flags(&["Qwen-Q8_0.gguf", "qwen-q4.gguf"], Some("Q8_0"), true).unwrap(), vec![true, false]);
    assert_eq!(match_flags(&["a", ""], Some("*"), false).unwrap(), vec![true, true]);
}

#[test]
fn glob_source_is_lowercased_and_wrapped() {
    assert_eq!(glob_source("Q8_0", true), "*q8_0*");
    assert_eq!(glob_source("General.*", false), "general.*");
}

#[test]
fn documented_filters_select_by_glob() {
    let names = ["llama.context_length", "LLaMA.rope", "general.name", "llama"];
    assert_eq!(match_flags(&names, Some("llama.*"), false).unwrap(), vec![true, true, false, false]);
    assert_eq!(match_flags(&names, Some("llam?"), false).unwrap(), vec![false, false, false, true]);
    assert_eq!(match_flags(&names, Some("*.r?pe"), false).unwrap(), vec![false, true, false, false]);
}

/// `*` any sequence, `?` any one character, anything else itself.
fn glob_model(p: &[char], t: &[char]) -> bool {
    match p.first() {
        None => t.is_empty(),
        Some('*') => glob_model(&p[1..], t) || (!t.is_empty() && glob_model(p, &t[1..])),
        Some(_) if t.is_empty() => false,
        Some('?') => glob_model(&p[1..], &t[1..]),
        Some(c) => *c == t[0] && glob_model(&p[1..], &t[1..]),
    }
}

#[test]
fn plain_globs_agree_with_the_model() {
    let patterns = ["", "*", "?", "a*", "*a", "*a*b?", "a?c", "*.*", "x*y*z", "??*", "é*", "!]"];
    let names = ["", "a", "ab", "abc", "a.b", "xaybz", "xyz", "zzz", "aab?", "é", "!]", "a/b"];
    for p in patterns {
        let pv: Vec<char> = p.chars().collect();
        let keep = match_flags(&names, Some(p), false).unwrap();
        for (i, n) in names.iter().enumerate() {
            let nv: Vec<char> = n.chars().collect();
            assert_eq!(keep[i], glob_model(&pv, &nv), "pattern {p:?} name {n:?}");
        }
    }
}
