use gguf_analyzer::output::resolve_output;
use std::path::{Path, PathBuf};

/// What `std::path` derives for the same inputs.
fn by_std(source: &str, suffix: &str) -> String {
    let source = Path::new(source);
    let parent = source.parent().unwrap_or_else(|| Path::new("."));
    let stem = source.file_stem().unwrap_or(source.as_os_str()).to_string_lossy();
    parent.join(format!("{stem}{suffix}.gguf")).to_string_lossy().into_owned()
}

#[test]
fn derives_sibling_with_suffix() {
    let out = resolve_output("/models/qwen/Qwen3-0.6B-Q8_0.gguf", None, "-sampled");
    assert_eq!(PathBuf::from(out), PathBuf::from("/models/qwen/Qwen3-0.6B-Q8_0-sampled.gguf"));
}

#[test]
fn explicit_output_wins() {
    let out = resolve_output("/models/model.gguf", Some("/tmp/custom.gguf"), "-sampled");
    assert_eq!(PathBuf::from(out), PathBuf::from("/tmp/custom.gguf"));
}

#[test]
fn works_with_bare_filename() {
    let out = resolve_output("model.gguf", None, "-modified");
    assert_eq!(PathBuf::from(out), PathBuf::from("model-modified.gguf"));
}

#[test]
fn doc_example() {
    assert_eq!(
        resolve_output("/home/user/models/model.gguf", None, "-sampled"),
        "/home/user/models/model-sampled.gguf"
    );
}

#[test]
fn agrees_with_std_path() {
    let cases = [
        "/models/qwen/Qwen3-0.6B-Q8_0.gguf",
        "model.gguf",
        "./model.gguf",
        "a/b/c.tar.gguf",
        "a//b/./c.gguf",
        "dir/",
        "/",
        ".hidden",
        "a/.hidden",
        "noext",
        "..",
        "a/..",
        "x/y.",
        "",
        ".",
        "./",
        "/a",
    ];
    for c in cases {
        assert_eq!(resolve_output(c, None, "-s"), by_std(c, "-s"), "source={c:?}");
    }
}
