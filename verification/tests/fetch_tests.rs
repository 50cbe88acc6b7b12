use gguf_analyzer::commands::fetch::{choose_file, direct_filename, file_names, format_size, is_direct_url, FileChoice};
use gguf_analyzer::hf::Sibling;

#[test]
fn direct_urls_are_recognised() {
    assert!(is_direct_url("https://example.com/m.gguf"));
    assert!(is_direct_url("http://example.com/m.gguf"));
    assert!(!is_direct_url("Qwen/Qwen3-0.6B-GGUF"));
    assert!(!is_direct_url("https://huggingface.co/Qwen/Qwen3-0.6B-GGUF"));
    assert!(!is_direct_url("ftp://example.com/m.gguf"));
}

#[test]
fn direct_file_name_is_last_segment() {
    assert_eq!(direct_filename("https://example.com/a/b/m.gguf"), "m.gguf");
    assert_eq!(direct_filename("m.gguf"), "m.gguf");
    assert_eq!(direct_filename("https://example.com/"), "");
}

#[test]
fn sizes_are_listed_like_the_table() {
    assert_eq!(format_size(None), "—");
    assert_eq!(format_size(Some(0)), "0 B");
    assert_eq!(format_size(Some(1_048_575)), "1048575 B");
    assert_eq!(format_size(Some(1_048_576)), "1.0 MB");
    assert_eq!(format_size(Some(639_446_688)), "609.8 MB");
    assert_eq!(format_size(Some(1_073_741_824)), "1.00 GB");
    assert_eq!(format_size(Some(8_709_518_624)), "8.11 GB");
}

#[test]
fn sizes_agree_with_float_formatting() {
    let mut b: u64 = 1;
    while b < u64::MAX / 3 {
        for v in [b, b + 1, b * 3 / 2, b * 2 - 1] {
            let expect = if v >= 1_073_741_824 {
                format!("{:.2} GB", v as f64 / 1_073_741_824.0)
            } else if v >= 1_048_576 {
                format!("{:.1} MB", v as f64 / 1_048_576.0)
            } else {
                format!("{} B", v)
            };
            assert_eq!(format_size(Some(v)), expect, "v={v}");
        }
        b = b * 2 + 7;
    }
}

#[test]
fn file_choice_counts_matches() {
    assert_eq!(choose_file(&[false, false]), FileChoice::NoMatch);
    assert_eq!(choose_file(&[false, true, false]), FileChoice::One(1));
    assert_eq!(choose_file(&[true, true]), FileChoice::Ambiguous);
    assert_eq!(choose_file(&[]), FileChoice::NoMatch);
}

#[test]
fn file_names_follow_siblings() {
    let s = vec![
        Sibling { rfilename: "a.gguf".to_string(), size: None },
        Sibling { rfilename: "b.gguf".to_string(), size: Some(3) },
    ];
    assert_eq!(file_names(&s), vec!["a.gguf", "b.gguf"]);
}
