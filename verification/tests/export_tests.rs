use gguf_analyzer::commands::export::{export_csv, export_markdown, sorted_entries};
use gguf_analyzer::display::Piece;
use gguf_analyzer::format::{MetadataArray, MetadataValue, ValueKind};
use gguf_analyzer::gguf::{build_gguf_header, ParsedGguf};
use gguf_analyzer::metadata::Metadata;
use gguf_analyzer::tensor::{TensorInfo, TensorShape, TensorType};

fn fixture() -> Vec<u8> {
    let mut metadata = Metadata::new();
    metadata.insert("general.architecture".to_string(), MetadataValue::String("test-arch".to_string()));
    metadata.insert("general.name".to_string(), MetadataValue::String("test-model".to_string()));
    metadata.insert("llm.context_length".to_string(), MetadataValue::U32(512));
    let shape = TensorShape::new(vec![4, 8]).expect("valid shape");
    let tensor = TensorInfo::new("token_embd.weight".to_string(), shape, TensorType::F32, 0);
    let mut bytes = build_gguf_header(&metadata, &[tensor], 32).expect("header");
    bytes.extend_from_slice(&[0u8; 128]);
    bytes
}

fn render(pieces: &[Piece]) -> String {
    let mut s = String::new();
    for p in pieces {
        match p {
            Piece::Text(t) => s.push_str(t),
            Piece::F32(b) => s.push_str(&format!("{}", f32::from_bits(*b))),
            Piece::F64(b) => s.push_str(&format!("{}", f64::from_bits(*b))),
        }
    }
    s
}

fn markdown_of_fixture() -> String {
    let bytes = fixture();
    let gguf = ParsedGguf::from_bytes("fixture.gguf".to_string(), &bytes).unwrap();
    let entries = sorted_entries(&gguf.metadata);
    render(&export_markdown(&entries, 8))
}

fn csv_of_fixture() -> String {
    let bytes = fixture();
    let gguf = ParsedGguf::from_bytes("fixture.gguf".to_string(), &bytes).unwrap();
    let entries = sorted_entries(&gguf.metadata);
    render(&export_csv(&entries, 8))
}

#[test]
fn markdown_escapes_pipe() {
    let key = "test.key".to_string();
    let val = MetadataValue::String("a|b".to_string());
    let entries = vec![(&key, &val)];
    let md = render(&export_markdown(&entries, 8));
    assert!(md.contains("a\\|b"));
}

#[test]
fn csv_header_row() {
    let csv = render(&export_csv(&[], 8));
    assert!(csv.starts_with("key,type,value\n"));
}

#[test]
fn export_markdown_starts_with_header() {
    assert!(markdown_of_fixture().starts_with("| Key |"), "must start with markdown table header");
}

#[test]
fn export_markdown_contains_separator_row() {
    assert!(markdown_of_fixture().contains("|-----|"), "must contain separator row");
}

#[test]
fn export_markdown_contains_all_keys() {
    let output = markdown_of_fixture();
    assert!(output.contains("`general.architecture`"));
    assert!(output.contains("`general.name`"));
    assert!(output.contains("`llm.context_length`"));
}

#[test]
fn export_markdown_contains_values() {
    let output = markdown_of_fixture();
    assert!(output.contains("test-model"), "must include string value");
    assert!(output.contains("test-arch"), "must include architecture value");
    assert!(output.contains("512"), "must include context length value");
}

#[test]
fn export_csv_starts_with_header() {
    assert!(csv_of_fixture().starts_with("key,type,value\n"), "must start with CSV header");
}

#[test]
fn export_csv_contains_all_keys() {
    let output = csv_of_fixture();
    assert!(output.contains("general.architecture"));
    assert!(output.contains("general.name"));
    assert!(output.contains("llm.context_length"));
}

#[test]
fn export_csv_contains_values() {
    let output = csv_of_fixture();
    assert!(output.contains("test-model"), "must include string value");
    assert!(output.contains("512"), "must include numeric value");
}

#[test]
fn export_csv_values_are_quoted() {
    assert!(csv_of_fixture().contains("\"test-model\""), "string values must be double-quoted");
}

#[test]
fn export_markdown_whole_table() {
    assert_eq!(
        markdown_of_fixture(),
        "| Key | Type | Value |\n|-----|------|-------|\n\
         | `general.architecture` | `string` | test-arch |\n\
         | `general.name` | `string` | test-model |\n\
         | `llm.context_length` | `u32` | 512 |\n"
    );
}

#[test]
fn export_csv_whole_file_and_quote_doubling() {
    assert_eq!(
        csv_of_fixture(),
        "key,type,value\n\
         general.architecture,string,\"test-arch\"\n\
         general.name,string,\"test-model\"\n\
         llm.context_length,u32,\"512\"\n"
    );
    let key = "q".to_string();
    let val = MetadataValue::String("say \"hi\"".to_string());
    assert_eq!(render(&export_csv(&[(&key, &val)], 8)), "key,type,value\nq,string,\"say \"\"hi\"\"\"\n");
}

#[test]
fn sorted_entries_orders_keys() {
    let mut m = Metadata::new();
    m.insert("zeta".to_string(), MetadataValue::U8(1));
    m.insert("alpha".to_string(), MetadataValue::U8(2));
    m.insert("Beta".to_string(), MetadataValue::U8(3));
    let keys: Vec<&str> = sorted_entries(&m).iter().map(|e| e.0.as_str()).collect();
    assert_eq!(keys, vec!["Beta", "alpha", "zeta"]);
}

#[test]
fn export_respects_array_limit() {
    let key = "a".to_string();
    let items = vec![MetadataValue::U8(1), MetadataValue::U8(2), MetadataValue::U8(3)];
    let val = MetadataValue::Array(MetadataArray { value_type: ValueKind::U8, items });
    let md = render(&export_markdown(&[(&key, &val)], 2));
    assert!(md.contains("| `a` | `array` | [1, 2, … 1 more] |"));
}
