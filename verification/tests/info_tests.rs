use gguf_analyzer::commands::info::info_rows;
use gguf_analyzer::display::format_bytes;
use gguf_analyzer::format::MetadataValue;
use gguf_analyzer::gguf::{build_gguf_header, ParsedGguf};
use gguf_analyzer::metadata::Metadata;
use gguf_analyzer::tensor::{TensorInfo, TensorShape, TensorType};

fn fixture() -> Vec<u8> {
    let mut metadata = Metadata::new();
    metadata.insert("general.architecture".to_string(), MetadataValue::String("test-arch".to_string()));
    metadata.insert("general.name".to_string(), MetadataValue::String("test-model".to_string()));
    metadata.insert("llm.context_length".to_string(), MetadataValue::U32(512));
    let shape = TensorShape::new(vec![4, 8]).expect("valid shape");
    let tensor = TensorInfo::new("token_embd.weight".to_string(), shape, TensorType::F32, 0);
    let mut bytes = build_gguf_header(&metadata, &[tensor], 32).expect("header");
    bytes.extend_from_slice(&[0u8; 128]);
    bytes
}

#[test]
fn info_opens_fixture() {
    let bytes = fixture();
    let gguf = ParsedGguf::from_bytes("fixture.gguf".to_string(), &bytes).expect("open fixture");
    assert_eq!(gguf.version, 3, "GGUF version should be 3");
    assert_eq!(gguf.tensor_count, 1, "fixture has exactly 1 tensor");
    assert_eq!(gguf.metadata.len(), 3, "fixture has 3 metadata entries");
    assert_eq!(gguf.alignment, 32, "should fall back to default alignment 32");
    assert!(gguf.file_size > 0, "file size must be non-zero");
}

#[test]
fn info_tensor_data_offset_is_nonzero() {
    let bytes = fixture();
    let gguf = ParsedGguf::from_bytes("fixture.gguf".to_string(), &bytes).expect("open fixture");
    assert!(gguf.tensor_data_offset > 0);
}

#[test]
fn info_format_bytes_boundaries() {
    assert_eq!(format_bytes(0), "0 B");
    assert_eq!(format_bytes(1023), "1023 B");
    assert_eq!(format_bytes(1024), "1.00 KiB");
    assert_eq!(format_bytes(1_048_576), "1.00 MiB");
    assert_eq!(format_bytes(1_073_741_824), "1.00 GiB");
}

#[test]
fn info_rows_summarise_the_file() {
    let bytes = fixture();
    let gguf = ParsedGguf::from_bytes("fixture.gguf".to_string(), &bytes).expect("open fixture");
    let rows = info_rows(&gguf);
    let labels: Vec<&str> = rows.iter().map(|r| r.0).collect();
    assert_eq!(
        labels,
        vec!["File", "File size", "GGUF version", "Tensor count", "Metadata entries", "Alignment", "Tensor data offset"]
    );
    assert_eq!(rows[0].1, "fixture.gguf");
    assert_eq!(rows[2].1, "3");
    assert_eq!(rows[3].1, "1");
    assert_eq!(rows[4].1, "3");
    assert_eq!(rows[5].1, "32 bytes");
    let off = gguf.tensor_data_offset;
    assert_eq!(rows[6].1, format!("{:#010x}  ({})", off, format_bytes(off)));
}

#[test]
fn info_missing_file_returns_err() {
    let result = ParsedGguf::from_bytes("/no/such/file.gguf".to_string(), &[]);
    assert!(result.is_err());
}
