use gguf_analyzer::hf::{gguf_siblings, readme_status, url_filename, ReadmeStatus, RepoId, RepoIdError, Sibling};

#[test]
fn parse_bare_repo_id() {
    let r = RepoId::parse("Qwen/Qwen3-0.6B-GGUF").unwrap();
    assert_eq!(r.owner, "Qwen");
    assert_eq!(r.repo, "Qwen3-0.6B-GGUF");
}

#[test]
fn parse_full_url() {
    let r = RepoId::parse("https://huggingface.co/Qwen/Qwen3-0.6B-GGUF").unwrap();
    assert_eq!(r.owner, "Qwen");
    assert_eq!(r.repo, "Qwen3-0.6B-GGUF");
}

#[test]
fn parse_url_with_trailing_slash() {
    let r = RepoId::parse("https://huggingface.co/Qwen/Qwen3-0.6B-GGUF/").unwrap();
    assert_eq!(r.repo, "Qwen3-0.6B-GGUF");
}

#[test]
fn parse_url_with_extra_segments() {
    let r = RepoId::parse("https://huggingface.co/Qwen/Qwen3-0.6B-GGUF/tree/main").unwrap();
    assert_eq!(r.owner, "Qwen");
    assert_eq!(r.repo, "Qwen3-0.6B-GGUF");
}

#[test]
fn file_url_is_correct() {
    let r = RepoId::parse("Qwen/Qwen3-0.6B-GGUF").unwrap();
    assert_eq!(
        r.file_url("Qwen3-0.6B-Q8_0.gguf"),
        "https://huggingface.co/Qwen/Qwen3-0.6B-GGUF/resolve/main/Qwen3-0.6B-Q8_0.gguf"
    );
}

#[test]
fn parse_missing_owner_errors() {
    assert!(RepoId::parse("").is_err());
    assert!(RepoId::parse("onlyone").is_err());
}

#[test]
fn parse_errors_name_the_missing_part() {
    assert_eq!(RepoId::parse("").unwrap_err(), RepoIdError::MissingOwner);
    assert_eq!(RepoId::parse("/repo").unwrap_err(), RepoIdError::MissingOwner);
    assert_eq!(RepoId::parse("onlyone").unwrap_err(), RepoIdError::MissingRepo);
    assert_eq!(RepoId::parse("https://huggingface.co/owner").unwrap_err(), RepoIdError::MissingRepo);
    assert_eq!(RepoIdError::MissingOwner.message(), "cannot parse repo owner from input");
    assert_eq!(RepoIdError::MissingRepo.message(), "cannot parse repo name from input");
}

#[test]
fn parse_http_url_and_trailing_slashes() {
    let r = RepoId::parse("http://huggingface.co/a/b//").unwrap();
    assert_eq!((r.owner.as_str(), r.repo.as_str()), ("a", "b"));
}

#[test]
fn repo_urls() {
    let r = RepoId::parse("Qwen/Qwen3-0.6B-GGUF").unwrap();
    assert_eq!(r.id(), "Qwen/Qwen3-0.6B-GGUF");
    assert_eq!(r.api_url(), "https://huggingface.co/api/models/Qwen/Qwen3-0.6B-GGUF");
    assert_eq!(r.readme_url(), "https://huggingface.co/Qwen/Qwen3-0.6B-GGUF/resolve/main/README.md");
}

#[test]
fn repo_id_roundtrips_through_its_text() {
    let r = RepoId::parse("unsloth/Qwen3-8B-GGUF").unwrap();
    let again = RepoId::parse(&r.id()).unwrap();
    assert_eq!(again.owner, r.owner);
    assert_eq!(again.repo, r.repo);
}

#[test]
fn only_gguf_siblings_are_listed() {
    let s = vec![
        Sibling { rfilename: "README.md".to_string(), size: Some(10) },
        Sibling { rfilename: "a-Q8_0.gguf".to_string(), size: Some(1) },
        Sibling { rfilename: "b.gguf".to_string(), size: None },
        Sibling { rfilename: "c.gguf.part".to_string(), size: None },
    ];
    let names: Vec<String> = gguf_siblings(&s).into_iter().map(|x| x.rfilename).collect();
    assert_eq!(names, vec!["a-Q8_0.gguf", "b.gguf"]);
}

#[test]
fn download_file_name_comes_from_url() {
    assert_eq!(url_filename("https://h/x/y/model.gguf").as_deref(), Some("model.gguf"));
    assert_eq!(url_filename("model.gguf").as_deref(), Some("model.gguf"));
    assert_eq!(url_filename("https://h/x/"), None);
    assert_eq!(url_filename(""), None);
}

#[test]
fn readme_status_codes() {
    assert!(matches!(readme_status(404), ReadmeStatus::Missing));
    assert!(matches!(readme_status(200), ReadmeStatus::Found));
    assert!(matches!(readme_status(500), ReadmeStatus::Failed));
    assert!(matches!(readme_status(301), ReadmeStatus::Failed));
}
