use gguf_analyzer::format::GgufError;
use gguf_analyzer::format::MetadataValue;
use gguf_analyzer::gguf::{align_offset, build_gguf_header, parse_gguf, ParsedGguf, DEFAULT_ALIGNMENT};
use gguf_analyzer::metadata::Metadata;
use gguf_analyzer::tensor::{TensorInfo, TensorShape, TensorType};

fn fixture() -> Vec<u8> {
    let mut metadata = Metadata::new();
    metadata.insert("general.architecture".to_string(), MetadataValue::String("test-arch".to_string()));
    metadata.insert("general.name".to_string(), MetadataValue::String("test-model".to_string()));
    metadata.insert("llm.context_length".to_string(), MetadataValue::U32(512));
    let shape = TensorShape::new(vec![4, 8]).expect("valid shape");
    let tensor = TensorInfo::new("token_embd.weight".to_string(), shape, TensorType::F32, 0);
    let mut bytes = build_gguf_header(&metadata, &[tensor], 32).expect("header");
    bytes.extend_from_slice(&[0u8; 128]);
    bytes
}

#[test]
fn align_zero_offset_stays_zero() {
    assert_eq!(align_offset(0, 32), 0);
}

#[test]
fn align_already_aligned_unchanged() {
    assert_eq!(align_offset(32, 32), 32);
    assert_eq!(align_offset(64, 32), 64);
    assert_eq!(align_offset(256, 32), 256);
}

#[test]
fn align_one_over_rounds_up() {
    assert_eq!(align_offset(33, 32), 64);
    assert_eq!(align_offset(1, 32), 32);
}

#[test]
fn align_spec_default_is_32() {
    assert_eq!(DEFAULT_ALIGNMENT, 32);
}

#[test]
fn align_zero_alignment_returns_offset_unchanged() {
    assert_eq!(align_offset(17, 0), 17);
}

#[test]
fn align_with_alignment_8() {
    assert_eq!(align_offset(0, 8), 0);
    assert_eq!(align_offset(7, 8), 8);
    assert_eq!(align_offset(8, 8), 8);
    assert_eq!(align_offset(9, 8), 16);
}

#[test]
fn padding_calculation_correct() {
    let header_end: u64 = 100;
    let alignment: u64 = 32;
    let aligned = align_offset(header_end, alignment);
    let padding = aligned - header_end;
    assert_eq!(padding, 28);
}

#[test]
fn header_is_padded_to_alignment() {
    let bytes = fixture();
    assert_eq!((bytes.len() - 128) % 32, 0);
    let parsed = parse_gguf(&bytes).expect("parse");
    assert_eq!(parsed.tensor_data_offset as usize, bytes.len() - 128);
}

#[test]
fn parse_reports_fixed_header_errors() {
    assert!(matches!(parse_gguf(&[0u8; 10]), Err(GgufError::UnexpectedEnd)));
    let mut bad = fixture();
    bad[0] = b'X';
    assert!(matches!(parse_gguf(&bad), Err(GgufError::InvalidMagic { .. })));
    let mut v2 = fixture();
    v2[4] = 2;
    assert!(matches!(parse_gguf(&v2), Err(GgufError::UnsupportedVersion(2))));
}

#[test]
fn parse_rejects_truncated_metadata() {
    let bytes = fixture();
    assert!(parse_gguf(&bytes[..40]).is_err());
}

#[test]
fn parsed_file_reads_declared_alignment() {
    let mut metadata = Metadata::new();
    metadata.insert("general.alignment".to_string(), MetadataValue::U32(64));
    let bytes = build_gguf_header(&metadata, &[], 64).expect("header");
    assert_eq!(bytes.len() % 64, 0);
    let g = ParsedGguf::from_bytes("x.gguf".to_string(), &bytes).expect("parse");
    assert_eq!(g.alignment, 64);
    assert_eq!(g.tensor_count, 0);
}

#[test]
fn rejects_unwritable_tensor() {
    let metadata = Metadata::new();
    let shape = TensorShape::new(vec![4]).expect("shape");
    let tensor = TensorInfo::new(String::new(), shape, TensorType::F32, 0);
    assert!(matches!(build_gguf_header(&metadata, &[tensor], 32), Err(GgufError::InvalidTensor)));
}
