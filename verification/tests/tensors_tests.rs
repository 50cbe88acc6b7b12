use gguf_analyzer::commands::tensors::{tensor_row_of, tensor_rows};
use gguf_analyzer::display::format_shape;
use gguf_analyzer::format::MetadataValue;
use gguf_analyzer::gguf::{build_gguf_header, ParsedGguf};
use gguf_analyzer::metadata::Metadata;
use gguf_analyzer::pattern::match_flags;
use gguf_analyzer::tensor::{TensorInfo, TensorShape, TensorType};

fn fixture() -> Vec<u8> {
    let mut metadata = Metadata::new();
    metadata.insert("general.architecture".to_string(), MetadataValue::String("test-arch".to_string()));
    metadata.insert("general.name".to_string(), MetadataValue::String("test-model".to_string()));
    metadata.insert("llm.context_length".to_string(), MetadataValue::U32(512));
    let shape = TensorShape::new(vec![4, 8]).expect("valid shape");
    let tensor = TensorInfo::new("token_embd.weight".to_string(), shape, TensorType::F32, 0);
    let mut bytes = build_gguf_header(&metadata, &[tensor], 32).expect("header");
    bytes.extend_from_slice(&[0u8; 128]);
    bytes
}

fn open() -> ParsedGguf {
    ParsedGguf::from_bytes("fixture.gguf".to_string(), &fixture()).expect("open fixture")
}

/// The tensors that the `tensors` table shows for `filter`.
fn filtered_count(gguf: &ParsedGguf, filter: &str) -> usize {
    let names: Vec<&str> = gguf.tensor_infos.iter().map(|t| t.name.as_str()).collect();
    let keep = match_flags(&names, Some(filter), false).expect("pattern compiles");
    tensor_rows(&gguf.tensor_infos, &keep).len()
}

#[test]
fn tensors_count_is_one() {
    assert_eq!(open().tensor_infos.len(), 1);
}

#[test]
fn tensors_name_is_correct() {
    assert_eq!(open().tensor_infos[0].name, "token_embd.weight");
}

#[test]
fn tensors_shape_dims_are_4_and_8() {
    let gguf = open();
    assert_eq!(gguf.tensor_infos[0].shape.dims(), &[4u64, 8u64]);
}

#[test]
fn tensors_element_count_is_32() {
    let gguf = open();
    let elems: u64 = gguf.tensor_infos[0].shape.dims().iter().product();
    assert_eq!(elems, 32);
    assert_eq!(gguf.tensor_infos[0].element_count(), 32);
}

#[test]
fn tensors_data_offset_is_accessible() {
    let gguf = open();
    assert_eq!(gguf.tensor_infos[0].data_offset, 0);
}

#[test]
fn format_shape_2d() {
    assert_eq!(format_shape(&[4, 8]), "[4 × 8]");
}

#[test]
fn format_shape_1d() {
    assert_eq!(format_shape(&[128]), "[128]");
}

#[test]
fn format_shape_3d() {
    assert_eq!(format_shape(&[2, 3, 4]), "[2 × 3 × 4]");
}

#[test]
fn format_shape_empty() {
    assert_eq!(format_shape(&[]), "[]");
}

#[test]
fn tensor_glob_weight_matches_one() {
    assert_eq!(filtered_count(&open(), "*weight*"), 1);
}

#[test]
fn tensor_glob_missing_returns_empty() {
    assert_eq!(filtered_count(&open(), "attn.*"), 0);
}

#[test]
fn tensor_glob_exact_name_matches() {
    assert_eq!(filtered_count(&open(), "token_embd.weight"), 1);
}

#[test]
fn tensor_row_shows_every_column() {
    let gguf = open();
    let row = tensor_row_of(&gguf.tensor_infos[0]);
    assert_eq!(row.name, "token_embd.weight");
    assert_eq!(row.shape, "[4 × 8]");
    assert_eq!(row.kind, "F32");
    assert_eq!(row.offset, "0x00000000");
    assert_eq!(row.size, "128 B");
}

#[test]
fn tensor_rows_follow_keep_flags() {
    let a = TensorInfo::new("a".to_string(), TensorShape::new(vec![2]).unwrap(), TensorType::F32, 0);
    let b = TensorInfo::new("b".to_string(), TensorShape::new(vec![2]).unwrap(), TensorType::F16, 0x1f0);
    let rows = tensor_rows(&[a, b], &[false, true]);
    assert_eq!(rows.len(), 1);
    assert_eq!(rows[0].name, "b");
    assert_eq!(rows[0].offset, "0x000001f0");
    assert_eq!(rows[0].size, "4 B");
}
