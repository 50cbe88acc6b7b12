//! `apply-sampling`: which sampling set of a model card to write into a GGUF
//! file, chosen by `--mode` or from a menu.

use vstd::prelude::*;
use crate::chars::{contains, find_in, trim, trim_ws, window_string};
use crate::commands::model_card::{sampling_model, SamplingModel, SamplingSet, Text};
use crate::error::AppError;
use crate::format::{model, MetadataValue, ValueModel};
use crate::gguf::{enc_file, header_error, header_writable, parsed_model, spec_align, zeros, ParsedGguf};
use crate::metadata::{has_key, spec_insert, EntryModel};
use crate::text::{chars_of, clamp_cap, lowercase, parse_integer, push_str, spec_parse_integer, str_eq, to_lowercase, to_string};

verus! {

/// Metadata keys of the sampling parameters.
pub const KEY_TEMPERATURE: &'static str = "llama.sampling.temperature";
pub const KEY_TOP_P: &'static str = "llama.sampling.top_p";
pub const KEY_TOP_K: &'static str = "llama.sampling.top_k";
pub const KEY_MIN_P: &'static str = "llama.sampling.min_p";
pub const KEY_PRESENCE_PENALTY: &'static str = "llama.sampling.presence_penalty";
pub const KEY_REPETITION_PENALTY: &'static str = "llama.sampling.repetition_penalty";

/// What `--mode` selects.
#[derive(Debug, Clone, Copy, PartialEq, Eq, Structural)]
pub enum ModeChoice {
    /// `custom`: enter the parameters interactively.
    Custom,
    /// The set at this position.
    Pick(usize),
    /// No set's label contains the mode.
    NoMatch,
}

/// The first position whose lowercased label contains `needle`, from `i` on.
pub open spec fn first_label_with(labels: Seq<Seq<char>>, needle: Seq<char>, i: int) -> Option<int>
    decreases labels.len() - i,
{
    if i < 0 || i >= labels.len() {
        None
    } else if contains(lowercase(labels[i]), needle) {
        Some(i)
    } else {
        first_label_with(labels, needle, i + 1)
    }
}

pub open spec fn labels_of(sets: Seq<SamplingSet>) -> Seq<Seq<char>> {
    sets.map_values(|s: SamplingSet| s.label@)
}

/// `custom` (in any case) asks for the parameters; otherwise the first set
/// whose lowercased label contains the lowercased mode.
pub open spec fn spec_choose_by_mode(labels: Seq<Seq<char>>, mode: Seq<char>) -> ModeChoice {
    if lowercase(mode) == "custom"@ {
        ModeChoice::Custom
    } else {
        match first_label_with(labels, lowercase(mode), 0) {
            Some(i) => ModeChoice::Pick(i as usize),
            None => ModeChoice::NoMatch,
        }
    }
}

/// Whether the lowercase form of `s` contains `needle`.
fn lower_contains(s: &str, needle: &str) -> (b: bool)
    ensures
        b == contains(lowercase(s@), needle@),
{
    let l = to_lowercase(s);
    let v = chars_of(l.as_str());
    let p = chars_of(needle);
    let n = v.len();
    proof {
        assert(v@.subrange(0, n as int) =~= v@);
    }
    find_in(&v, 0, n, &p).is_some()
}

/// The set `--mode` selects.
pub fn choose_by_mode(sets: &[SamplingSet], mode: &str) -> (r: ModeChoice)
    ensures
        r == spec_choose_by_mode(labels_of(sets@), mode@),
{
    let lowered = to_lowercase(mode);
    if str_eq(lowered.as_str(), "custom") {
        return ModeChoice::Custom;
    }
    let ghost labels = labels_of(sets@);
    let mut i: usize = 0;
    while i < sets.len()
        invariant
            labels == labels_of(sets@),
            lowered@ == lowercase(mode@),
            lowered@ != "custom"@,
            i <= sets@.len(),
            first_label_with(labels, lowered@, 0) == first_label_with(labels, lowered@, i as int),
        decreases sets@.len() - i,
    {
        proof {
            assert(labels[i as int] == sets@[i as int].label@);
        }
        if lower_contains(sets[i].label.as_str(), lowered.as_str()) {
            proof {
                assert(first_label_with(labels, lowered@, i as int) == Some(i as int));
                assert(lowercase(mode@) != "custom"@);
                assert(spec_choose_by_mode(labels_of(sets@), mode@) == ModeChoice::Pick(i));
            }
            return ModeChoice::Pick(i);
        }
        i = i + 1;
    }
    ModeChoice::NoMatch
}

/// The labels of the sets, separated by `", "` (listed when no set matches).
pub open spec fn spec_join_labels(labels: Seq<Seq<char>>) -> Seq<char>
    decreases labels.len(),
{
    if labels.len() == 0 {
        Seq::empty()
    } else if labels.len() == 1 {
        labels[0]
    } else {
        spec_join_labels(labels.drop_last()) + ", "@ + labels.last()
    }
}

pub fn join_labels(sets: &[SamplingSet]) -> (r: String)
    ensures
        r@ == spec_join_labels(labels_of(sets@)),
{
    let ghost labels = labels_of(sets@);
    let mut r = String::new();
    let mut i: usize = 0;
    while i < sets.len()
        invariant
            labels == labels_of(sets@),
            i <= sets@.len(),
            r@ == spec_join_labels(labels.take(i as int)),
        decreases sets@.len() - i,
    {
        proof {
            assert(labels.take(i + 1).drop_last() =~= labels.take(i as int));
        }
        if i > 0 {
            push_str(&mut r, ", ");
        }
        push_str(&mut r, sets[i].label.as_str());
        proof {
            if i == 0 {
                assert(r@ =~= spec_join_labels(labels.take(1)));
            }
        }
        i = i + 1;
    }
    proof {
        assert(labels.take(labels.len() as int) =~= labels);
    }
    r
}

/// An entry of the preset menu.
#[derive(Debug, Clone, Copy, PartialEq, Eq, Structural)]
pub enum MenuEntry {
    /// The first thinking-mode set.
    Thinking(usize),
    /// The first non-thinking set.
    NonThinking(usize),
    /// A set that is neither.
    Other(usize),
    /// Enter the parameters interactively.
    Custom,
}

/// A thinking-mode label: mentions `thinking` and not `non`.
pub open spec fn is_thinking(l: Seq<char>) -> bool {
    contains(lowercase(l), "thinking"@) && !contains(lowercase(l), "non"@)
}

/// A non-thinking label: mentions `non`.
pub open spec fn is_non_thinking(l: Seq<char>) -> bool {
    contains(lowercase(l), "non"@)
}

/// A label of neither kind: mentions neither `thinking` nor `non`.
pub open spec fn is_other(l: Seq<char>) -> bool {
    !contains(lowercase(l), "thinking"@) && !contains(lowercase(l), "non"@)
}

/// The first position from `i` on whose label satisfies `f`.
pub open spec fn first_with(labels: Seq<Seq<char>>, f: spec_fn(Seq<char>) -> bool, i: int) -> Option<int>
    decreases labels.len() - i,
{
    if i < 0 || i >= labels.len() {
        None
    } else if f(labels[i]) {
        Some(i)
    } else {
        first_with(labels, f, i + 1)
    }
}

pub open spec fn thinking_pred() -> spec_fn(Seq<char>) -> bool {
    |l: Seq<char>| is_thinking(l)
}

pub open spec fn non_thinking_pred() -> spec_fn(Seq<char>) -> bool {
    |l: Seq<char>| is_non_thinking(l)
}

/// The `Other` entries for the labels at positions `0..n`.
pub open spec fn other_entries(labels: Seq<Seq<char>>, n: int) -> Seq<MenuEntry>
    decreases n,
{
    if n <= 0 {
        Seq::empty()
    } else {
        other_entries(labels, n - 1) + if is_other(labels[n - 1]) {
            seq![MenuEntry::Other((n - 1) as usize)]
        } else {
            Seq::empty()
        }
    }
}

/// The preset menu: the first thinking-mode set, the first non-thinking set,
/// every set of neither kind, then the custom entry.
pub open spec fn spec_menu(labels: Seq<Seq<char>>) -> Seq<MenuEntry> {
    let t = first_with(labels, thinking_pred(), 0);
    let nt = first_with(labels, non_thinking_pred(), 0);
    (match t {
        Some(i) => seq![MenuEntry::Thinking(i as usize)],
        None => Seq::empty(),
    }) + (match nt {
        Some(i) => seq![MenuEntry::NonThinking(i as usize)],
        None => Seq::empty(),
    }) + other_entries(labels, labels.len() as int) + seq![MenuEntry::Custom]
}

/// The preset menu of the sets.
pub fn menu_entries(sets: &[SamplingSet]) -> (r: Vec<MenuEntry>)
    ensures
        r@ == spec_menu(labels_of(sets@)),
{
    let ghost labels = labels_of(sets@);
    let n = sets.len();
    let mut thinking: Option<usize> = None;
    let mut non_thinking: Option<usize> = None;
    let mut others: Vec<MenuEntry> = Vec::new();
    let mut i: usize = 0;
    while i < n
        invariant
            n == sets@.len(),
            labels == labels_of(sets@),
            i <= n,
            match thinking {
                Some(t) => first_with(labels, thinking_pred(), 0) == Some(t as int),
                None => first_with(labels, thinking_pred(), 0) == first_with(labels, thinking_pred(), i as int),
            },
            match non_thinking {
                Some(t) => first_with(labels, non_thinking_pred(), 0) == Some(t as int),
                None => first_with(labels, non_thinking_pred(), 0) == first_with(labels, non_thinking_pred(), i as int),
            },
            others@ == other_entries(labels, i as int),
        decreases n - i,
    {
        let label = sets[i].label.as_str();
        let has_thinking = lower_contains(label, "thinking");
        let has_non = lower_contains(label, "non");
        proof {
            assert(labels[i as int] == label@);
            assert(thinking_pred()(labels[i as int]) == is_thinking(labels[i as int]));
            assert(non_thinking_pred()(labels[i as int]) == is_non_thinking(labels[i as int]));
            assert(first_with(labels, thinking_pred(), i as int) == if thinking_pred()(labels[i as int]) {
                Some(i as int)
            } else {
                first_with(labels, thinking_pred(), i + 1)
            });
            assert(first_with(labels, non_thinking_pred(), i as int) == if non_thinking_pred()(labels[i as int]) {
                Some(i as int)
            } else {
                first_with(labels, non_thinking_pred(), i + 1)
            });
        }
        if thinking.is_none() && has_thinking && !has_non {
            thinking = Some(i);
        }
        if non_thinking.is_none() && has_non {
            non_thinking = Some(i);
        }
        if !has_thinking && !has_non {
            others.push(MenuEntry::Other(i));
        }
        i = i + 1;
    }
    let mut r: Vec<MenuEntry> = Vec::new();
    match thinking {
        Some(t) => r.push(MenuEntry::Thinking(t)),
        None => {},
    }
    match non_thinking {
        Some(t) => r.push(MenuEntry::NonThinking(t)),
        None => {},
    }
    let ghost head = r@;
    let mut k: usize = 0;
    while k < others.len()
        invariant
            k <= others@.len(),
            r@ == head + others@.take(k as int),
        decreases others@.len() - k,
    {
        r.push(others[k]);
        proof {
            assert(others@.take(k + 1) =~= others@.take(k as int).push(others@[k as int]));
        }
        k = k + 1;
    }
    r.push(MenuEntry::Custom);
    proof {
        assert(others@.take(others@.len() as int) =~= others@);
        assert(r@ =~= spec_menu(labels));
    }
    r
}

/// The menu entry a typed answer picks: the number typed (a `usize` as
/// `str::parse` reads it, after trimming), `0` when it does not read as
/// one, and at most the last entry.
pub open spec fn spec_menu_pick(answer: Seq<char>, entries: nat) -> nat {
    let idx = match spec_parse_integer(trim(answer), false) {
        Some(x) => if x <= usize::MAX {
            x as nat
        } else {
            0
        },
        None => 0,
    };
    if idx < entries - 1 {
        idx
    } else {
        (entries - 1) as nat
    }
}

/// The menu entry picked by a typed answer.
pub fn menu_pick(answer: &str, entries: usize) -> (r: usize)
    requires
        entries >= 1,
    ensures
        r == spec_menu_pick(answer@, entries as nat),
{
    let v = chars_of(answer);
    let n = v.len();
    proof {
        assert(v@.subrange(0, n as int) =~= v@);
    }
    let (a, b) = trim_ws(&v, 0, n);
    let t = window_string(&v, a, b);
    let idx: usize = match parse_integer(t.as_str(), false) {
        Some(x) => if 0 <= x && x <= usize::MAX as i128 {
            x as usize
        } else {
            0
        },
        None => 0,
    };
    if idx < entries - 1 {
        idx
    } else {
        entries - 1
    }
}

// ── Converting a set ─────────────────────────────────────────────────────────

/// How each trimmed field of a set reads as an `f32` (`str::parse::<f32>`):
/// the bits of the value, or `None` where the field is absent or does not
/// read as one.  For `top_k` it is that reading converted to `u32` with
/// `as`, which is used when the field is not a whole number (READMEs
/// sometimes write `20.0`).
#[derive(Debug, Clone, Copy)]
pub struct FloatReadings {
    pub temperature: Option<u32>,
    pub top_p: Option<u32>,
    pub top_k: Option<u32>,
    pub min_p: Option<u32>,
    pub presence_penalty: Option<u32>,
    pub repetition_penalty: Option<u32>,
}

/// The parameter of an `f32` field: present when the field is present and
/// reads as a float.
pub open spec fn float_param(field: Option<Text>, reading: Option<u32>, key: Seq<char>) -> Seq<
    (Seq<char>, ValueModel),
> {
    if field is Some && reading is Some {
        seq![(key, ValueModel::F32(reading->0))]
    } else {
        Seq::empty()
    }
}

/// The top-k of a field: the trimmed field as a `u32`, else its float
/// reading converted to `u32`.
pub open spec fn spec_top_k(field: Option<Text>, fallback: Option<u32>) -> Option<u32> {
    match field {
        None => None,
        Some(s) => match spec_parse_integer(trim(s), false) {
            Some(x) => if 0 <= x <= u32::MAX {
                Some(x as u32)
            } else {
                fallback
            },
            None => fallback,
        },
    }
}

/// The metadata entries of a set: temperature, top-p, top-k, min-p,
/// presence and repetition penalty, each where it can be read; fields that
/// cannot be read are skipped.
pub open spec fn spec_sampling_params(set: SamplingModel, r: FloatReadings) -> Seq<(Seq<char>, ValueModel)> {
    float_param(set.temperature, r.temperature, KEY_TEMPERATURE@) + float_param(
        set.top_p,
        r.top_p,
        KEY_TOP_P@,
    ) + (match spec_top_k(set.top_k, r.top_k) {
        Some(v) => seq![(KEY_TOP_K@, ValueModel::U32(v))],
        None => Seq::empty(),
    }) + float_param(set.min_p, r.min_p, KEY_MIN_P@) + float_param(
        set.presence_penalty,
        r.presence_penalty,
        KEY_PRESENCE_PENALTY@,
    ) + float_param(set.repetition_penalty, r.repetition_penalty, KEY_REPETITION_PENALTY@)
}

/// Law: each field of a sampling set is written under its own key — the
/// temperature under `llama.sampling.temperature`, top-p under
/// `llama.sampling.top_p`, top-k (as `u32`) under `llama.sampling.top_k`,
/// min-p under `llama.sampling.min_p`, the presence and repetition penalties
/// under `llama.sampling.presence_penalty` and
/// `llama.sampling.repetition_penalty` — and a field that cannot be read
/// writes nothing.
pub proof fn law_sampling_param_keys(set: SamplingModel, r: FloatReadings)
    ensures
        set.temperature is Some && set.top_p is None && set.top_k is None && set.min_p is None && set.presence_penalty is None && set.repetition_penalty is None && r.temperature is Some ==> spec_sampling_params(set, r) == seq![
            ("llama.sampling.temperature"@, ValueModel::F32(r.temperature->0)),
        ],
        set.temperature is None && set.top_p is Some && set.top_k is None && set.min_p is None && set.presence_penalty is None && set.repetition_penalty is None && r.top_p is Some ==> spec_sampling_params(set, r) == seq![
            ("llama.sampling.top_p"@, ValueModel::F32(r.top_p->0)),
        ],
        set.temperature is None && set.top_p is None && set.top_k is Some && set.min_p is None && set.presence_penalty is None && set.repetition_penalty is None && spec_top_k(set.top_k, r.top_k) is Some ==> spec_sampling_params(set, r) == seq![
            ("llama.sampling.top_k"@, ValueModel::U32(spec_top_k(set.top_k, r.top_k)->0)),
        ],
        set.temperature is None && set.top_p is None && set.top_k is None && set.min_p is Some && set.presence_penalty is None && set.repetition_penalty is None && r.min_p is Some ==> spec_sampling_params(set, r) == seq![
            ("llama.sampling.min_p"@, ValueModel::F32(r.min_p->0)),
        ],
        set.temperature is None && set.top_p is None && set.top_k is None && set.min_p is None && set.presence_penalty is Some && set.repetition_penalty is None && r.presence_penalty is Some ==> spec_sampling_params(set, r) == seq![
            ("llama.sampling.presence_penalty"@, ValueModel::F32(r.presence_penalty->0)),
        ],
        set.temperature is None && set.top_p is None && set.top_k is None && set.min_p is None && set.presence_penalty is None && set.repetition_penalty is Some && r.repetition_penalty is Some ==> spec_sampling_params(set, r) == seq![
            ("llama.sampling.repetition_penalty"@, ValueModel::F32(r.repetition_penalty->0)),
        ],
        set.temperature is None && set.top_p is None && set.top_k is None && set.min_p is None
            && set.presence_penalty is None && set.repetition_penalty is None ==> spec_sampling_params(
            set,
            r,
        ).len() == 0,
{
    law_sampling_keys();
    assert(float_param(None, r.temperature, KEY_TEMPERATURE@) =~= Seq::<(Seq<char>, ValueModel)>::empty());
    assert(spec_sampling_params(set, r) =~= float_param(set.temperature, r.temperature, KEY_TEMPERATURE@)
        + float_param(set.top_p, r.top_p, KEY_TOP_P@) + (match spec_top_k(set.top_k, r.top_k) {
        Some(v) => seq![(KEY_TOP_K@, ValueModel::U32(v))],
        None => Seq::empty(),
    }) + float_param(set.min_p, r.min_p, KEY_MIN_P@) + float_param(
        set.presence_penalty,
        r.presence_penalty,
        KEY_PRESENCE_PENALTY@,
    ) + float_param(set.repetition_penalty, r.repetition_penalty, KEY_REPETITION_PENALTY@));
}

pub open spec fn param_models(ps: Seq<(String, MetadataValue)>) -> Seq<(Seq<char>, ValueModel)> {
    ps.map_values(|p: (String, MetadataValue)| (p.0@, model(p.1)))
}

proof fn lemma_param_models_push(ps: Seq<(String, MetadataValue)>, p: (String, MetadataValue))
    ensures
        param_models(ps.push(p)) == param_models(ps).push((p.0@, model(p.1))),
{
    assert(param_models(ps.push(p)) =~= param_models(ps).push((p.0@, model(p.1))));
}

fn push_float_param(params: &mut Vec<(String, MetadataValue)>, field: &Option<String>, reading: Option<u32>, key: &str)
    ensures
        param_models(final(params)@) == param_models(old(params)@) + float_param(
            crate::commands::model_card::opt_view(*field),
            reading,
            key@,
        ),
{
    let ghost before = params@;
    if field.is_some() {
        match reading {
            Some(b) => {
                params.push((to_string(key), MetadataValue::F32(b)));
                proof {
                    lemma_param_models_push(before, params@.last());
                    assert(params@ == before.push(params@.last()));
                }
            },
            None => {},
        }
    }
    proof {
        assert(param_models(params@) =~= param_models(before) + float_param(
            crate::commands::model_card::opt_view(*field),
            reading,
            key@,
        ));
    }
}

/// The top-k of a field (see [`spec_top_k`]).
pub fn top_k_of(field: &Option<String>, fallback: Option<u32>) -> (r: Option<u32>)
    ensures
        r == spec_top_k(crate::commands::model_card::opt_view(*field), fallback),
{
    match field {
        None => None,
        Some(s) => {
            let v = chars_of(s.as_str());
            let n = v.len();
            proof {
                assert(v@.subrange(0, n as int) =~= v@);
            }
            let (a, b) = trim_ws(&v, 0, n);
            let t = window_string(&v, a, b);
            match parse_integer(t.as_str(), false) {
                Some(x) => if 0 <= x && x <= 0xffff_ffff {
                    Some(x as u32)
                } else {
                    fallback
                },
                None => fallback,
            }
        },
    }
}

/// The metadata entries to write for a set, given how its fields read as
/// floats (see [`FloatReadings`]).
pub fn sampling_params(set: &SamplingSet, readings: &FloatReadings) -> (r: Vec<(String, MetadataValue)>)
    ensures
        param_models(r@) == spec_sampling_params(sampling_model(*set), *readings),
{
    let mut params: Vec<(String, MetadataValue)> = Vec::new();
    proof {
        assert(param_models(params@) =~= Seq::<(Seq<char>, ValueModel)>::empty());
    }
    push_float_param(&mut params, &set.temperature, readings.temperature, KEY_TEMPERATURE);
    push_float_param(&mut params, &set.top_p, readings.top_p, KEY_TOP_P);
    let ghost before = params@;
    match top_k_of(&set.top_k, readings.top_k) {
        Some(k) => {
            params.push((to_string(KEY_TOP_K), MetadataValue::U32(k)));
            proof {
                lemma_param_models_push(before, params@.last());
                assert(params@ == before.push(params@.last()));
            }
        },
        None => {},
    }
    push_float_param(&mut params, &set.min_p, readings.min_p, KEY_MIN_P);
    push_float_param(&mut params, &set.presence_penalty, readings.presence_penalty, KEY_PRESENCE_PENALTY);
    push_float_param(&mut params, &set.repetition_penalty, readings.repetition_penalty, KEY_REPETITION_PENALTY);
    proof {
        assert(param_models(params@) =~= spec_sampling_params(sampling_model(*set), *readings));
    }
    params
}

// ── Entering the parameters by hand ──────────────────────────────────────────

/// Number of parameters asked for when entering them by hand.
pub const PROMPT_FIELDS: usize = 5;

/// The key of the parameter asked for at step `field`: temperature, top-k,
/// top-p, min-p, presence penalty.
pub open spec fn spec_prompt_key(field: int) -> Seq<char> {
    if field == 0 {
        KEY_TEMPERATURE@
    } else if field == 1 {
        KEY_TOP_K@
    } else if field == 2 {
        KEY_TOP_P@
    } else if field == 3 {
        KEY_MIN_P@
    } else {
        KEY_PRESENCE_PENALTY@
    }
}

/// Law: the sampling parameters are written under the `llama.sampling.*`
/// keys, and each step of entering them by hand writes the key of the
/// parameter it asks for: temperature, top-k, top-p, min-p, presence
/// penalty, in that order.
pub proof fn law_sampling_keys()
    ensures
        KEY_TEMPERATURE@ == "llama.sampling.temperature"@,
        KEY_TOP_P@ == "llama.sampling.top_p"@,
        KEY_TOP_K@ == "llama.sampling.top_k"@,
        KEY_MIN_P@ == "llama.sampling.min_p"@,
        KEY_PRESENCE_PENALTY@ == "llama.sampling.presence_penalty"@,
        KEY_REPETITION_PENALTY@ == "llama.sampling.repetition_penalty"@,
        spec_prompt_key(0) == "llama.sampling.temperature"@,
        spec_prompt_key(1) == "llama.sampling.top_k"@,
        spec_prompt_key(2) == "llama.sampling.top_p"@,
        spec_prompt_key(3) == "llama.sampling.min_p"@,
        spec_prompt_key(4) == "llama.sampling.presence_penalty"@,
{
}

/// The key of the parameter asked for at step `field`.
pub fn prompt_key(field: usize) -> (k: &'static str)
    requires
        field < PROMPT_FIELDS,
    ensures
        k@ == spec_prompt_key(field as int),
{
    if field == 0 {
        KEY_TEMPERATURE
    } else if field == 1 {
        KEY_TOP_K
    } else if field == 2 {
        KEY_TOP_P
    } else if field == 3 {
        KEY_MIN_P
    } else {
        KEY_PRESENCE_PENALTY
    }
}

/// The value an answer gives at step `field`: top-k is a whole number (see
/// [`spec_top_k`], with `reading` as the fallback); the others are `f32`,
/// `reading` being the bits of the trimmed answer read as one.
pub open spec fn prompt_value(field: int, line: Seq<char>, reading: Option<u32>) -> Option<ValueModel> {
    if field == 1 {
        match spec_top_k(Some(line), reading) {
            Some(v) => Some(ValueModel::U32(v)),
            None => None,
        }
    } else {
        match reading {
            Some(b) => Some(ValueModel::F32(b)),
            None => None,
        }
    }
}

/// What an answer did.
#[derive(Debug, Clone, Copy, PartialEq, Eq, Structural)]
pub enum PromptAction {
    /// A blank answer: the parameter is left out.
    Skipped,
    /// The answer gave the parameter's value.
    Accepted,
    /// The answer cannot be read: the same parameter is asked again.
    Retry,
}

/// One answer while entering the parameters by hand, at step `field` with
/// the parameters entered so far: a blank (trimmed) answer skips to the next
/// step; an answer that reads as a value adds the parameter and moves on;
/// any other answer asks the same step again.  `reading` is how the trimmed
/// answer reads as an `f32` (its bits; for top-k, converted to `u32` with
/// `as`).  Returns the next step, the parameters and what happened.
pub fn prompt_step(field: usize, params: Vec<(String, MetadataValue)>, line: &str, reading: Option<u32>) -> (r: (
    usize,
    Vec<(String, MetadataValue)>,
    PromptAction,
))
    requires
        field < PROMPT_FIELDS,
    ensures
        trim(line@).len() == 0 ==> r.0 == field + 1 && r.1@ == params@ && r.2 == PromptAction::Skipped,
        trim(line@).len() > 0 ==> match prompt_value(field as int, line@, reading) {
            Some(v) => {
                &&& r.0 == field + 1
                &&& param_models(r.1@) == param_models(params@).push((spec_prompt_key(field as int), v))
                &&& r.2 == PromptAction::Accepted
            },
            None => r.0 == field && r.1@ == params@ && r.2 == PromptAction::Retry,
        },
{
    let v = chars_of(line);
    let n = v.len();
    proof {
        assert(v@.subrange(0, n as int) =~= v@);
    }
    let (a, b) = trim_ws(&v, 0, n);
    if a == b {
        return (field + 1, params, PromptAction::Skipped);
    }
    let value = if field == 1 {
        match top_k_of(&Some(to_string(line)), reading) {
            Some(k) => Some(MetadataValue::U32(k)),
            None => None,
        }
    } else {
        match reading {
            Some(bits) => Some(MetadataValue::F32(bits)),
            None => None,
        }
    };
    match value {
        Some(x) => {
            let mut out = params;
            let ghost before = out@;
            out.push((to_string(prompt_key(field)), x));
            proof {
                lemma_param_models_push(before, out@.last());
                assert(out@ == before.push(out@.last()));
            }
            (field + 1, out, PromptAction::Accepted)
        },
        None => (field, params, PromptAction::Retry),
    }
}

// ── Writing the parameters ───────────────────────────────────────────────────

/// The entries after setting each of `params` in order.
pub open spec fn insert_all(m: Seq<EntryModel>, params: Seq<(String, MetadataValue)>) -> Seq<EntryModel>
    decreases params.len(),
{
    if params.len() == 0 {
        m
    } else {
        let last = params.last();
        spec_insert(insert_all(m, params.drop_last()), last.0@, model(last.1))
    }
}

/// What `apply-sampling` does once the parameters are known.
#[derive(Debug)]
pub enum ApplyOutcome {
    /// No parameters: nothing to do.
    Nothing,
    /// A dry run: nothing is written.
    DryRun,
    /// Write `header`, then the source file's tensor data.  `added[i]` tells
    /// whether the `i`-th parameter's key was new.
    Write { header: Vec<u8>, added: Vec<bool> },
}

/// The decisions of `apply-sampling`, given the file as read, the resolved
/// parameters, the output path and whether it exists.
///
/// In order: no parameters means nothing to do; a dry run writes nothing; an
/// existing output without `--force` is an error; otherwise every parameter
/// is set in `gguf`, in order, and the new header sections are returned.
pub fn plan_apply(
    gguf: &mut ParsedGguf,
    params: Vec<(String, MetadataValue)>,
    dry_run: bool,
    output: &str,
    output_exists: bool,
    force: bool,
) -> (r: Result<ApplyOutcome, AppError>)
    ensures
        params@.len() == 0 ==> r matches Ok(ApplyOutcome::Nothing),
        params@.len() > 0 && dry_run ==> r matches Ok(ApplyOutcome::DryRun),
        params@.len() > 0 && !dry_run && output_exists && !force ==> (r matches Err(
            AppError::OutputExists { path },
        ) && path@ == output@),
        params@.len() > 0 && !dry_run && (!output_exists || force) ==> {
            &&& final(gguf).metadata@ == insert_all(old(gguf).metadata@, params@)
            &&& header_writable(parsed_model(*final(gguf)), final(gguf).alignment) ==> (r matches Ok(
                ApplyOutcome::Write { .. },
            ))
        },
        r matches Err(AppError::GgufLib { path, source }) ==> {
            &&& params@.len() > 0 && !dry_run && (!output_exists || force)
            &&& path@ == output@
            &&& header_error(parsed_model(*final(gguf)), final(gguf).alignment, source)
        },
        !(params@.len() > 0 && !dry_run && (!output_exists || force)) ==> final(gguf).metadata@
            == old(gguf).metadata@,
        r matches Ok(ApplyOutcome::Write { header, added }) ==> {
            let len = enc_file(parsed_model(*final(gguf))).len();
            &&& header@ == enc_file(parsed_model(*final(gguf))) + zeros(
                (spec_align(len as int, final(gguf).alignment as int) - len) as nat,
            )
            &&& added@.len() == params@.len()
            &&& forall|i: int|
                0 <= i < params@.len() ==> #[trigger] added@[i] == !has_key(
                    insert_all(old(gguf).metadata@, params@.take(i)),
                    params@[i].0@,
                )
        },
        final(gguf).tensor_infos@ == old(gguf).tensor_infos@,
        final(gguf).alignment == old(gguf).alignment,
        final(gguf).path@ == old(gguf).path@,
        final(gguf).tensor_data_offset == old(gguf).tensor_data_offset,
{
    if params.len() == 0 {
        return Ok(ApplyOutcome::Nothing);
    }
    if dry_run {
        return Ok(ApplyOutcome::DryRun);
    }
    if output_exists && !force {
        return Err(AppError::OutputExists { path: to_string(output) });
    }
    let ghost m0 = gguf.metadata@;
    let ghost ps = params@;
    let total = params.len();
    let mut added: Vec<bool> = Vec::new();
    let mut rest = params;
    let mut taken: usize = 0;
    proof {
        assert(rest@ =~= ps.skip(0));
    }
    while rest.len() > 0
        invariant
            total == ps.len(),
            taken <= ps.len(),
            rest@ == ps.skip(taken as int),
            gguf.metadata@ == insert_all(m0, ps.take(taken as int)),
            added@.len() == taken,
            forall|i: int|
                0 <= i < taken ==> #[trigger] added@[i] == !has_key(insert_all(m0, ps.take(i)), ps[i].0@),
            gguf.tensor_infos@ == old(gguf).tensor_infos@,
            gguf.alignment == old(gguf).alignment,
            gguf.path@ == old(gguf).path@,
            gguf.tensor_data_offset == old(gguf).tensor_data_offset,
            m0 == old(gguf).metadata@,
        decreases rest@.len(),
    {
        let (key, value) = rest.remove(0);
        proof {
            assert(ps[taken as int] == (key, value));
            assert(ps.take(taken + 1).drop_last() =~= ps.take(taken as int));
            assert(rest@ =~= ps.skip(taken + 1));
        }
        let exists = gguf.metadata.contains_key(key.as_str());
        added.push(!exists);
        gguf.metadata.insert(key, value);
        taken = taken + 1;
    }
    proof {
        assert(ps.take(ps.len() as int) =~= ps);
    }
    match gguf.header_bytes() {
        Ok(header) => Ok(ApplyOutcome::Write { header, added }),
        Err(e) => Err(AppError::gguf_lib(to_string(output), e)),
    }
}

} // verus!
