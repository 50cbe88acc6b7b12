use gguf_analyzer::cli::ValueType;

#[test]
fn value_type_names_are_lowercase_type_strings() {
    assert_eq!(ValueType::U32.type_str(), "u32");
    assert_eq!(ValueType::F32.type_str(), "f32");
    assert_eq!(ValueType::String.type_str(), "string");
    assert_eq!(ValueType::Bool.type_str(), "bool");
}
