use gguf_analyzer::cli::RemoveArgs;
use gguf_analyzer::commands::remove::{plan_remove, RemoveOutcome};
use gguf_analyzer::error::AppError;
use gguf_analyzer::format::MetadataValue;
use gguf_analyzer::gguf::{build_gguf_header, ParsedGguf};
use gguf_analyzer::metadata::Metadata;
use gguf_analyzer::tensor::{TensorInfo, TensorShape, TensorType};

fn fixture() -> Vec<u8> {
    let mut metadata = Metadata::new();
    metadata.insert("general.architecture".to_string(), MetadataValue::String("test-arch".to_string()));
    metadata.insert("general.name".to_string(), MetadataValue::String("test-model".to_string()));
    metadata.insert("llm.context_length".to_string(), MetadataValue::U32(512));
    let shape = TensorShape::new(vec![4, 8]).expect("valid shape");
    let tensor = TensorInfo::new("token_embd.weight".to_string(), shape, TensorType::F32, 0);
    let mut bytes = build_gguf_header(&metadata, &[tensor], 32).expect("header");
    bytes.extend_from_slice(&[0u8; 128]);
    bytes
}

fn args(key: &str, force: bool, dry_run: bool) -> RemoveArgs {
    RemoveArgs {
        file: "model.gguf".to_string(),
        key: key.to_string(),
        output: "out.gguf".to_string(),
        force,
        backup: false,
        dry_run,
    }
}

/// Run `remove` on the fixture and read back the file it would write.
fn run_remove(a: &RemoveArgs) -> Result<ParsedGguf, AppError> {
    let src = fixture();
    let mut gguf = ParsedGguf::from_bytes(a.file.clone(), &src)?;
    match plan_remove(&mut gguf, a, false)? {
        RemoveOutcome::Write { header } => {
            let mut out = header;
            out.extend_from_slice(&src[gguf.tensor_data_offset as usize..]);
            ParsedGguf::from_bytes(a.output.clone(), &out)
        }
        RemoveOutcome::DryRun { .. } => panic!("not a dry run"),
    }
}

#[test]
fn remove_key_disappears_from_output() {
    let g = run_remove(&args("llm.context_length", true, false)).expect("remove should succeed");
    assert!(!g.metadata.contains_key("llm.context_length"), "removed key must be absent");
}

#[test]
fn remove_decrements_metadata_count() {
    let src = fixture();
    let count_before = ParsedGguf::from_bytes("model.gguf".to_string(), &src).unwrap().metadata.len();
    let g = run_remove(&args("general.name", true, false)).expect("remove should succeed");
    assert_eq!(g.metadata.len(), count_before - 1);
}

#[test]
fn remove_other_keys_are_preserved() {
    let g = run_remove(&args("llm.context_length", true, false)).expect("remove should succeed");
    assert!(g.metadata.contains_key("general.architecture"));
    assert!(g.metadata.contains_key("general.name"));
    assert_eq!(g.metadata.get("general.name").unwrap(), &MetadataValue::String("test-model".to_string()));
}

#[test]
fn remove_missing_key_errors() {
    match run_remove(&args("does.not.exist", false, false)) {
        Err(AppError::KeyNotFound { key, path }) => {
            assert_eq!(key, "does.not.exist");
            assert_eq!(path, "model.gguf");
        }
        other => panic!("unexpected {other:?}"),
    }
}

#[test]
fn remove_dry_run_does_not_write_file() {
    let src = fixture();
    let mut gguf = ParsedGguf::from_bytes("model.gguf".to_string(), &src).unwrap();
    match plan_remove(&mut gguf, &args("general.name", true, true), false).expect("dry-run should return Ok") {
        RemoveOutcome::DryRun { old } => assert_eq!(old.len(), 1),
        RemoveOutcome::Write { .. } => panic!("dry-run must not write"),
    }
    assert!(gguf.metadata.contains_key("general.name"));
}

#[test]
fn remove_refuses_existing_output_without_force() {
    let src = fixture();
    let mut gguf = ParsedGguf::from_bytes("model.gguf".to_string(), &src).unwrap();
    assert!(matches!(
        plan_remove(&mut gguf, &args("general.name", false, false), true),
        Err(AppError::OutputExists { .. })
    ));
    assert!(gguf.metadata.contains_key("general.name"));
}

#[test]
fn remove_keeps_tensors() {
    let g = run_remove(&args("general.architecture", true, false)).unwrap();
    assert_eq!(g.tensor_count, 1);
    assert_eq!(g.tensor_infos[0].name(), "token_embd.weight");
    assert_eq!(g.tensor_data_offset % 32, 0);
}
