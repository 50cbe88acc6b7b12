use gguf_analyzer::error::AppError;
use gguf_analyzer::format::GgufError;

#[test]
fn key_not_found_message_contains_key_and_path() {
    let err = AppError::KeyNotFound {
        key: "general.name".to_string(),
        path: "/tmp/model.gguf".to_string(),
    };
    let msg = err.message();
    assert!(msg.contains("general.name"), "message: {msg}");
    assert!(msg.contains("/tmp/model.gguf"), "message: {msg}");
}

#[test]
fn type_parse_message_contains_value_and_type() {
    let err = AppError::TypeParse {
        value: "not-a-number".to_string(),
        type_str: "u32",
        reason: "invalid digit found".to_string(),
    };
    let msg = err.message();
    assert!(msg.contains("not-a-number"), "message: {msg}");
    assert!(msg.contains("u32"), "message: {msg}");
    assert!(msg.contains("invalid digit"), "message: {msg}");
}

#[test]
fn output_exists_message_contains_path() {
    let err = AppError::OutputExists { path: "/tmp/out.gguf".to_string() };
    let msg = err.message();
    assert!(msg.contains("/tmp/out.gguf"), "message: {msg}");
    assert!(msg.contains("--force"), "should mention --force: {msg}");
}

#[test]
fn io_error_carries_path() {
    let io = std::io::Error::new(std::io::ErrorKind::NotFound, "no such file");
    let err = AppError::io("/nonexistent.gguf".to_string(), io);
    let msg = err.message();
    assert!(msg.contains("/nonexistent.gguf"), "message: {msg}");
    assert!(msg.contains("no such file"), "message: {msg}");
}

#[test]
fn unknown_export_format_lists_supported() {
    let err = AppError::UnknownExportFormat { format: "yaml".to_string() };
    let msg = err.message();
    assert!(msg.contains("yaml"), "message: {msg}");
    assert!(msg.contains("json"), "should list supported formats: {msg}");
}

#[test]
fn gguf_parse_message_contains_path_and_message() {
    let err = AppError::GgufParse {
        path: "/models/llama.gguf".to_string(),
        message: "bad magic".to_string(),
    };
    let msg = err.message();
    assert!(msg.contains("/models/llama.gguf"), "message: {msg}");
    assert!(msg.contains("bad magic"), "message: {msg}");
}

#[test]
fn gguf_error_messages_are_exact() {
    assert_eq!(
        GgufError::InvalidMagic { found: 0x1234abcd }.message(),
        "Invalid GGUF magic number: expected 0x46554747, found 0x1234ABCD"
    );
    assert_eq!(GgufError::UnsupportedVersion(2).message(), "Unsupported GGUF version: 2");
    assert_eq!(GgufError::UnexpectedEnd.message(), "Unexpected end of file");
    let err = AppError::gguf_lib("/m.gguf".to_string(), GgufError::UnexpectedEnd);
    assert_eq!(err.message(), "GGUF library error on '/m.gguf': Unexpected end of file");
}

#[test]
fn app_error_messages_are_exact() {
    let err = AppError::KeyNotFound { key: "k".to_string(), path: "p".to_string() };
    assert_eq!(err.message(), "Metadata key 'k' not found in 'p'");
    let err = AppError::UnknownExportFormat { format: "yaml".to_string() };
    assert_eq!(err.message(), "Unknown export format 'yaml'. Supported: json, markdown, csv");
}
