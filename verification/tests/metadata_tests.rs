use gguf_analyzer::format::{MetadataArray, MetadataValue, ValueKind};
use gguf_analyzer::metadata::{parse_metadata, Metadata};

fn sample() -> Metadata {
    let mut m = Metadata::new();
    m.insert("b.key".to_string(), MetadataValue::U32(1));
    m.insert("a.key".to_string(), MetadataValue::String("x".to_string()));
    m
}

#[test]
fn insert_then_get_gives_the_value() {
    let mut m = sample();
    m.insert("c.key".to_string(), MetadataValue::Bool(true));
    assert_eq!(m.get("c.key"), Some(&MetadataValue::Bool(true)));
    assert_eq!(m.get("b.key"), Some(&MetadataValue::U32(1)));
    assert_eq!(m.len(), 3);
}

#[test]
fn insert_existing_key_replaces_in_place() {
    let mut m = sample();
    m.insert("b.key".to_string(), MetadataValue::U32(7));
    assert_eq!(m.len(), 2);
    assert_eq!(m.get("b.key"), Some(&MetadataValue::U32(7)));
    assert_eq!(m.entries()[0].0, "b.key");
}

#[test]
fn remove_then_absent_and_others_kept() {
    let mut m = sample();
    assert_eq!(m.remove("b.key"), Some(MetadataValue::U32(1)));
    assert!(!m.contains_key("b.key"));
    assert!(m.contains_key("a.key"));
    assert_eq!(m.len(), 1);
    assert_eq!(m.remove("missing"), None);
    assert_eq!(m.len(), 1);
}

#[test]
fn insert_then_remove_restores() {
    let mut m = sample();
    m.insert("new".to_string(), MetadataValue::I8(-3));
    m.remove("new");
    let keys: Vec<&str> = m.entries().iter().map(|e| e.0.as_str()).collect();
    assert_eq!(keys, vec!["b.key", "a.key"]);
}

#[test]
fn get_u64_reads_unsigned_integers() {
    let mut m = Metadata::new();
    m.insert("a".to_string(), MetadataValue::U32(64));
    m.insert("b".to_string(), MetadataValue::U8(3));
    m.insert("c".to_string(), MetadataValue::String("64".to_string()));
    assert_eq!(m.get_u64("a"), Some(64));
    assert_eq!(m.get_u64("missing"), None);
    assert_eq!(m.get_u64("c"), None);
    assert_eq!(m.get_u64("b"), Some(3));
}

#[test]
fn sorted_order_orders_by_key() {
    let m = sample();
    assert_eq!(m.sorted_order(), vec![1, 0]);
    assert!(Metadata::new().is_empty());
}

#[test]
fn written_entries_parse_back() {
    let mut m = sample();
    let arr = MetadataArray { value_type: ValueKind::String, items: vec![MetadataValue::String("t".to_string())] };
    m.insert("arr".to_string(), MetadataValue::Array(arr));
    m.insert("f".to_string(), MetadataValue::F64(1.25f64.to_bits()));
    let mut bytes = vec![0xAA];
    m.write_to(&mut bytes);
    let (back, end) = parse_metadata(&bytes, 1, 4).expect("parses");
    assert_eq!(end, bytes.len());
    assert_eq!(back.entries(), m.entries());
    assert!(parse_metadata(&bytes, 1, 5).is_err());
}

#[test]
fn duplicate_keys_are_rejected_when_reading() {
    let mut one = Metadata::new();
    one.insert("k".to_string(), MetadataValue::U8(1));
    let mut bytes = Vec::new();
    one.write_to(&mut bytes);
    let copy = bytes.clone();
    bytes.extend_from_slice(&copy);
    assert!(parse_metadata(&bytes, 0, 2).is_err());
    assert!(parse_metadata(&bytes, 0, 1).is_ok());
}
