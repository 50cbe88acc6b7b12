use gguf_analyzer::commands::model_card::{
    card_rows, extract_frontmatter, extract_value_after_colon, param_rows, strip_frontmatter, ModelCard,
};

const QWEN_SNIPPET: &str = r#"---
license: apache-2.0
pipeline_tag: text-generation
tags:
- conversational
base_model: Qwen/Qwen3-0.6B
---
# Qwen3-0.6B-GGUF

## Model Overview

- Number of Parameters: 0.6B
- Number of Layers: 28
- Number of Attention Heads (GQA): 16 for Q and 8 for KV
- Context Length: 32768
- Quantization: q8_0

## Best Practices

- For thinking mode (`enable_thinking=True`): Temperature=0.6, TopP=0.95, TopK=20, MinP=0, and PresencePenalty=1.5
- For non-thinking mode (`enable_thinking=False`): Temperature=0.7, TopP=0.8, TopK=20, MinP=0, and PresencePenalty=1.5
"#;

#[test]
fn parses_frontmatter_license() {
    let card = ModelCard::parse(QWEN_SNIPPET);
    assert_eq!(card.license.as_deref(), Some("apache-2.0"));
}

#[test]
fn parses_frontmatter_pipeline_tag() {
    let card = ModelCard::parse(QWEN_SNIPPET);
    assert_eq!(card.pipeline_tag.as_deref(), Some("text-generation"));
}

#[test]
fn parses_frontmatter_tags() {
    let card = ModelCard::parse(QWEN_SNIPPET);
    assert!(card.tags.contains(&"conversational".to_string()));
}

#[test]
fn parses_model_name() {
    let card = ModelCard::parse(QWEN_SNIPPET);
    assert_eq!(card.model_name.as_deref(), Some("Qwen3-0.6B-GGUF"));
}

#[test]
fn parses_context_length() {
    let card = ModelCard::parse(QWEN_SNIPPET);
    assert!(card.context_length.is_some());
}

#[test]
fn parses_sampling_parameters() {
    let card = ModelCard::parse(QWEN_SNIPPET);
    assert!(!card.sampling_sets.is_empty(), "should find at least one sampling set");
    let thinking = card.sampling_sets.iter().find(|s| s.label.to_lowercase().contains("thinking"));
    assert!(thinking.is_some(), "should find a thinking-mode set");
    let t = thinking.unwrap();
    assert_eq!(t.temperature.as_deref(), Some("0.6"));
    assert_eq!(t.top_p.as_deref(), Some("0.95"));
    assert_eq!(t.top_k.as_deref(), Some("20"));
}

#[test]
fn extract_frontmatter_returns_none_without_delimiters() {
    assert!(extract_frontmatter("# Just a heading\nNo frontmatter here").is_none());
}

#[test]
fn overview_fields_are_read() {
    let card = ModelCard::parse(QWEN_SNIPPET);
    assert_eq!(card.base_model.as_deref(), Some("Qwen/Qwen3-0.6B"));
    assert_eq!(card.parameters.as_deref(), Some("0.6B"));
    assert_eq!(card.num_layers.as_deref(), Some("28"));
    assert_eq!(card.attention_heads.as_deref(), Some("16 for Q and 8 for KV"));
    assert_eq!(card.context_length.as_deref(), Some("32768"));
    assert_eq!(card.quantization.as_deref(), Some("q8_0"));
}

#[test]
fn both_sampling_sets_are_found() {
    let card = ModelCard::parse(QWEN_SNIPPET);
    // "## Best Practices" opens a set of its own, gathered from the lines below it.
    assert_eq!(card.sampling_sets.len(), 3);
    assert_eq!(card.sampling_sets[0].label, "Best Practices");
    assert_eq!(card.sampling_sets[0].temperature.as_deref(), Some("0.6"));
    let nt = &card.sampling_sets[2];
    assert!(nt.label.to_lowercase().contains("non-thinking"));
    assert_eq!(nt.temperature.as_deref(), Some("0.7"));
    assert_eq!(nt.top_p.as_deref(), Some("0.8"));
    assert_eq!(nt.min_p.as_deref(), Some("0"));
    assert_eq!(nt.presence_penalty.as_deref(), Some("1.5"));
}

#[test]
fn frontmatter_is_split_from_body() {
    let fm = extract_frontmatter(QWEN_SNIPPET).unwrap();
    assert!(fm.contains("license: apache-2.0"));
    assert!(!fm.contains("---"));
    let body = strip_frontmatter(QWEN_SNIPPET);
    assert!(body.trim_start().starts_with("# Qwen3-0.6B-GGUF"));
    assert_eq!(strip_frontmatter("no front matter"), "no front matter");
}

#[test]
fn value_after_colon() {
    assert_eq!(extract_value_after_colon("- Context Length: 32768").as_deref(), Some("32768"));
    assert_eq!(extract_value_after_colon("no colon here"), None);
    assert_eq!(extract_value_after_colon("Key:   "), None);
}

#[test]
fn card_without_anything() {
    let card = ModelCard::parse("plain text\nwith nothing in it\n");
    assert!(card.license.is_none());
    assert!(card.model_name.is_none());
    assert!(card.sampling_sets.is_empty());
    assert!(card_rows(&card).is_empty());
}

#[test]
fn rows_list_present_fields() {
    let card = ModelCard::parse(QWEN_SNIPPET);
    let rows = card_rows(&card);
    assert_eq!(rows[0], ("Model name".to_string(), "Qwen3-0.6B-GGUF".to_string()));
    assert!(rows.contains(&("Tags".to_string(), "conversational".to_string())));
    let p = param_rows(&card.sampling_sets[0]);
    assert_eq!(p[0], ("Temperature".to_string(), "0.6".to_string()));
    assert!(p.contains(&("Top-K".to_string(), "20".to_string())));
}

#[test]
fn cli_flags_are_read_wherever_they_stand() {
    let card = ModelCard::parse("Run it with:\n\nllama-cli -m model.gguf --temp 0.6 --top-k 20, --min-p 0\n");
    assert_eq!(card.sampling_sets.len(), 1);
    let s = &card.sampling_sets[0];
    assert_eq!(s.label, "Run it with:");
    assert_eq!(s.temperature.as_deref(), Some("0.6"));
    assert_eq!(s.top_k.as_deref(), Some("20"));
    assert_eq!(s.min_p.as_deref(), Some("0"));
}

#[test]
fn boolean_values_are_read() {
    let card = ModelCard::parse("## Sampling parameters\n- temperature: True\n- top_p=0.9\n");
    assert_eq!(card.sampling_sets.len(), 1);
    assert_eq!(card.sampling_sets[0].temperature.as_deref(), Some("True"));
    assert_eq!(card.sampling_sets[0].top_p.as_deref(), Some("0.9"));
}
