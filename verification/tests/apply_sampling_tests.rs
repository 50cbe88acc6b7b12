use gguf_analyzer::commands::apply_sampling::{prompt_step, PromptAction};
use gguf_analyzer::commands::apply_sampling::{
    choose_by_mode, join_labels, menu_entries, menu_pick, plan_apply, sampling_params, ApplyOutcome, FloatReadings,
    MenuEntry, ModeChoice, KEY_MIN_P, KEY_REPETITION_PENALTY, KEY_TEMPERATURE, KEY_TOP_K, KEY_TOP_P,
};
use std::collections::HashMap;
use gguf_analyzer::commands::model_card::SamplingSet;
use gguf_analyzer::error::AppError;
use gguf_analyzer::format::MetadataValue;
use gguf_analyzer::gguf::{build_gguf_header, ParsedGguf};
use gguf_analyzer::metadata::Metadata;

fn make_set(
    label: &str,
    temp: Option<&str>,
    top_p: Option<&str>,
    top_k: Option<&str>,
    min_p: Option<&str>,
    presence: Option<&str>,
    repetition: Option<&str>,
) -> SamplingSet {
    SamplingSet {
        label: label.to_string(),
        temperature: temp.map(str::to_string),
        top_p: top_p.map(str::to_string),
        top_k: top_k.map(str::to_string),
        min_p: min_p.map(str::to_string),
        presence_penalty: presence.map(str::to_string),
        repetition_penalty: repetition.map(str::to_string),
        max_tokens: None,
        extra: vec![],
    }
}

fn labelled(label: &str, temp: Option<&str>) -> SamplingSet {
    make_set(label, temp, None, None, None, None, None)
}

fn two_modes() -> Vec<SamplingSet> {
    vec![labelled("Thinking Mode", Some("0.6")), labelled("Non-Thinking Mode", Some("0.7"))]
}

/// How the binary reads the fields as floats.
fn readings(set: &SamplingSet) -> FloatReadings {
    let read = |f: &Option<String>| f.as_deref().and_then(|s| s.trim().parse::<f32>().ok());
    FloatReadings {
        temperature: read(&set.temperature).map(f32::to_bits),
        top_p: read(&set.top_p).map(f32::to_bits),
        top_k: read(&set.top_k).map(|f| f as u32),
        min_p: read(&set.min_p).map(f32::to_bits),
        presence_penalty: read(&set.presence_penalty).map(f32::to_bits),
        repetition_penalty: read(&set.repetition_penalty).map(f32::to_bits),
    }
}

fn sampling_set_to_map(set: &SamplingSet) -> HashMap<String, MetadataValue> {
    sampling_params(set, &readings(set)).into_iter().collect()
}

fn f32_near(v: Option<&MetadataValue>, want: f32, tol: f32) -> bool {
    matches!(v, Some(MetadataValue::F32(b)) if (f32::from_bits(*b) - want).abs() < tol)
}

#[test]
fn converts_f32_fields() {
    let set = make_set("test", Some("0.7"), Some("0.9"), None, Some("0.05"), None, None);
    let map = sampling_set_to_map(&set);
    assert!(f32_near(map.get(KEY_TEMPERATURE), 0.7, 1e-5));
    assert!(f32_near(map.get(KEY_TOP_P), 0.9, 1e-5));
    assert!(f32_near(map.get(KEY_MIN_P), 0.05, 1e-5));
    assert!(!map.contains_key(KEY_TOP_K));
}

#[test]
fn converts_top_k_as_u32() {
    let set = make_set("test", None, None, Some("40"), None, None, None);
    let map = sampling_set_to_map(&set);
    assert!(matches!(map.get(KEY_TOP_K), Some(MetadataValue::U32(40))));
}

#[test]
fn converts_top_k_float_string() {
    let set = make_set("test", None, None, Some("20.0"), None, None, None);
    let map = sampling_set_to_map(&set);
    assert!(matches!(map.get(KEY_TOP_K), Some(MetadataValue::U32(20))));
}

#[test]
fn skips_unparseable_field() {
    let set = make_set("test", Some("hot"), None, None, None, None, None);
    let map = sampling_set_to_map(&set);
    assert!(!map.contains_key(KEY_TEMPERATURE));
}

#[test]
fn converts_repetition_penalty() {
    let set = make_set("test", None, None, None, None, None, Some("1.1"));
    let map = sampling_set_to_map(&set);
    assert!(f32_near(map.get(KEY_REPETITION_PENALTY), 1.1, 1e-4));
}

#[test]
fn parameters_come_in_key_order_and_top_k_is_trimmed() {
    let set = make_set("t", Some(" 0.5 "), Some("x"), Some(" 7 "), None, Some("1"), None);
    let keys: Vec<String> = sampling_params(&set, &readings(&set)).into_iter().map(|p| p.0).collect();
    assert_eq!(keys, vec![KEY_TEMPERATURE, KEY_TOP_K, "llama.sampling.presence_penalty"]);
    let unusable = make_set("t", None, None, Some("many"), None, None, None);
    assert!(sampling_params(&unusable, &readings(&unusable)).is_empty());
}

#[test]
fn pick_set_by_mode_non_thinking() {
    let sets = two_modes();
    let chosen = choose_by_mode(&sets, "non-thinking");
    assert_eq!(chosen, ModeChoice::Pick(1));
    if let ModeChoice::Pick(i) = chosen {
        assert_eq!(sets[i].temperature.as_deref(), Some("0.7"));
    }
}

#[test]
fn pick_set_by_mode_thinking() {
    let sets = two_modes();
    let chosen = choose_by_mode(&sets, "thinking");
    assert_eq!(chosen, ModeChoice::Pick(0));
    if let ModeChoice::Pick(i) = chosen {
        assert_eq!(sets[i].temperature.as_deref(), Some("0.6"));
    }
}

#[test]
fn pick_set_missing_mode_errors() {
    let sets = vec![labelled("Alpha", None), labelled("Beta", None)];
    assert_eq!(choose_by_mode(&sets, "gamma"), ModeChoice::NoMatch);
    assert_eq!(join_labels(&sets), "Alpha, Beta");
}

#[test]
fn custom_mode_in_any_case() {
    assert_eq!(choose_by_mode(&two_modes(), "CUSTOM"), ModeChoice::Custom);
    assert_eq!(choose_by_mode(&two_modes(), "THINK"), ModeChoice::Pick(0));
}

#[test]
fn menu_lists_thinking_non_thinking_others_then_custom() {
    let sets = vec![
        labelled("Non-thinking", None),
        labelled("General", None),
        labelled("Thinking", None),
        labelled("Coding", None),
    ];
    assert_eq!(
        menu_entries(&sets),
        vec![MenuEntry::Thinking(2), MenuEntry::NonThinking(0), MenuEntry::Other(1), MenuEntry::Other(3), MenuEntry::Custom]
    );
    assert_eq!(menu_entries(&[]), vec![MenuEntry::Custom]);
}

#[test]
fn menu_answer_is_clamped() {
    assert_eq!(menu_pick("1", 3), 1);
    assert_eq!(menu_pick(" 2 \n", 3), 2);
    assert_eq!(menu_pick("9", 3), 2);
    assert_eq!(menu_pick("x", 3), 0);
    assert_eq!(menu_pick("", 3), 0);
    assert_eq!(menu_pick("-1", 3), 0);
    assert_eq!(menu_pick("99999999999999999999999", 3), 0);
}

#[test]
fn apply_sets_every_parameter() {
    let mut m = Metadata::new();
    m.insert(KEY_TEMPERATURE.to_string(), MetadataValue::F32(1.0f32.to_bits()));
    let header = build_gguf_header(&m, &[], 32).unwrap();
    let mut gguf = ParsedGguf::from_bytes("m.gguf".to_string(), &header).unwrap();
    let params = vec![
        (KEY_TEMPERATURE.to_string(), MetadataValue::F32(0.7f32.to_bits())),
        (KEY_TOP_K.to_string(), MetadataValue::U32(20)),
    ];
    match plan_apply(&mut gguf, params, false, "out.gguf", false, false).unwrap() {
        ApplyOutcome::Write { header, added } => {
            assert_eq!(added, vec![false, true]);
            let g = ParsedGguf::from_bytes("out.gguf".to_string(), &header).unwrap();
            assert_eq!(g.metadata.get(KEY_TEMPERATURE), Some(&MetadataValue::F32(0.7f32.to_bits())));
            assert_eq!(g.metadata.get(KEY_TOP_K), Some(&MetadataValue::U32(20)));
        }
        other => panic!("unexpected {other:?}"),
    }
}

#[test]
fn apply_outcomes_without_writing() {
    let header = build_gguf_header(&Metadata::new(), &[], 32).unwrap();
    let mut gguf = ParsedGguf::from_bytes("m.gguf".to_string(), &header).unwrap();
    assert!(matches!(plan_apply(&mut gguf, vec![], false, "o", false, false), Ok(ApplyOutcome::Nothing)));
    let p = || vec![(KEY_TOP_K.to_string(), MetadataValue::U32(1))];
    assert!(matches!(plan_apply(&mut gguf, p(), true, "o", false, false), Ok(ApplyOutcome::DryRun)));
    assert!(matches!(plan_apply(&mut gguf, p(), false, "o", true, false), Err(AppError::OutputExists { .. })));
    assert!(gguf.metadata.is_empty());
}

#[test]
fn prompt_steps_skip_accept_and_retry() {
    let (next, p, a) = prompt_step(0, vec![], "  \n", None);
    assert_eq!((next, p.len(), a), (1, 0, PromptAction::Skipped));
    let (next, p, a) = prompt_step(1, p, "20.0\n", Some(20));
    assert_eq!((next, a), (2, PromptAction::Accepted));
    assert_eq!(p, vec![(KEY_TOP_K.to_string(), MetadataValue::U32(20))]);
    let (next, p, a) = prompt_step(1, p, " 40 \n", None);
    assert_eq!((next, a), (2, PromptAction::Accepted));
    assert_eq!(p[1], (KEY_TOP_K.to_string(), MetadataValue::U32(40)));
    let (next, p, a) = prompt_step(2, p, "hot\n", None);
    assert_eq!((next, p.len(), a), (2, 2, PromptAction::Retry));
    let (next, p, a) = prompt_step(2, p, "0.9\n", Some(0.9f32.to_bits()));
    assert_eq!((next, a), (3, PromptAction::Accepted));
    assert_eq!(p[2], (KEY_TOP_P.to_string(), MetadataValue::F32(0.9f32.to_bits())));
}
