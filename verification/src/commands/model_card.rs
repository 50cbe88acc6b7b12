//! Reading a HuggingFace model card (a README in Markdown): the YAML front
//! matter (license, pipeline tag, tags, base model), the model overview
//! (name, architecture, parameter and layer counts, context length,
//! quantization) and the recommended sampling parameters.
//!
//! The reading is heuristic and is specified step by step: each helper has a
//! spec function of the same name prefixed with `spec_`.  Two steps cut a
//! string at a byte position: where that position falls inside a character
//! (only possible with non-ASCII text), reading the card is impossible, and
//! [`ModelCard::try_parse`] returns `None`.

use vstd::prelude::*;
use vstd::utf8::*;
use crate::chars::{
    contains, find, find_char_in, lemma_find, lemma_remove_set_excludes, lemma_trim_ends,
    lemma_trim_within, is_ws, find_in, in_set, index_of, line_windows, lines, remove_set,
    remove_set_in, replace_all, replace_all_in, starts_with, starts_with_at, strip_all,
    strip_all_in, trim, trim_end_by, trim_end_set, trim_start_by, trim_start_set,
    trim_start_ws, trim_ws,
    window_string, word_windows, words, ws,
};
use crate::text::{chars_of, lowercase, push_str, string_of, to_lowercase, to_string};

verus! {

broadcast use vstd::seq::group_seq_axioms;

// ── Data model ───────────────────────────────────────────────────────────────

/// What a model card says.
#[derive(Debug)]
pub struct ModelCard {
    pub license: Option<String>,
    pub pipeline_tag: Option<String>,
    pub tags: Vec<String>,
    pub base_model: Option<String>,
    pub model_name: Option<String>,
    pub architecture: Option<String>,
    pub parameters: Option<String>,
    pub parameters_non_embedding: Option<String>,
    pub num_layers: Option<String>,
    pub attention_heads: Option<String>,
    pub context_length: Option<String>,
    pub quantization: Option<String>,
    pub sampling_sets: Vec<SamplingSet>,
}

/// A named group of recommended sampling parameters (e.g. "thinking mode").
#[derive(Debug)]
pub struct SamplingSet {
    pub label: String,
    pub temperature: Option<String>,
    pub top_p: Option<String>,
    pub top_k: Option<String>,
    pub min_p: Option<String>,
    pub presence_penalty: Option<String>,
    pub repetition_penalty: Option<String>,
    pub max_tokens: Option<String>,
    pub extra: Vec<(String, String)>,
}

/// Text, as a sequence of characters.
pub type Text = Seq<char>;

/// The model of a [`SamplingSet`].
pub struct SamplingModel {
    pub label: Text,
    pub temperature: Option<Text>,
    pub top_p: Option<Text>,
    pub top_k: Option<Text>,
    pub min_p: Option<Text>,
    pub presence_penalty: Option<Text>,
    pub repetition_penalty: Option<Text>,
    pub max_tokens: Option<Text>,
    pub extra: Seq<(Text, Text)>,
}

/// The model of a [`ModelCard`].
pub struct CardModel {
    pub license: Option<Text>,
    pub pipeline_tag: Option<Text>,
    pub tags: Seq<Text>,
    pub base_model: Option<Text>,
    pub model_name: Option<Text>,
    pub overview: Overview,
    pub sampling_sets: Seq<SamplingModel>,
}

/// The overview fields of a card.
pub struct Overview {
    pub architecture: Option<Text>,
    pub parameters: Option<Text>,
    pub parameters_non_embedding: Option<Text>,
    pub num_layers: Option<Text>,
    pub attention_heads: Option<Text>,
    pub context_length: Option<Text>,
    pub quantization: Option<Text>,
}

pub open spec fn opt_view(o: Option<String>) -> Option<Text> {
    match o {
        Some(s) => Some(s@),
        None => None,
    }
}

pub open spec fn sampling_model(s: SamplingSet) -> SamplingModel {
    SamplingModel {
        label: s.label@,
        temperature: opt_view(s.temperature),
        top_p: opt_view(s.top_p),
        top_k: opt_view(s.top_k),
        min_p: opt_view(s.min_p),
        presence_penalty: opt_view(s.presence_penalty),
        repetition_penalty: opt_view(s.repetition_penalty),
        max_tokens: opt_view(s.max_tokens),
        extra: s.extra@.map_values(|e: (String, String)| (e.0@, e.1@)),
    }
}

pub open spec fn card_model(c: ModelCard) -> CardModel {
    CardModel {
        license: opt_view(c.license),
        pipeline_tag: opt_view(c.pipeline_tag),
        tags: c.tags@.map_values(|t: String| t@),
        base_model: opt_view(c.base_model),
        model_name: opt_view(c.model_name),
        overview: Overview {
            architecture: opt_view(c.architecture),
            parameters: opt_view(c.parameters),
            parameters_non_embedding: opt_view(c.parameters_non_embedding),
            num_layers: opt_view(c.num_layers),
            attention_heads: opt_view(c.attention_heads),
            context_length: opt_view(c.context_length),
            quantization: opt_view(c.quantization),
        },
        sampling_sets: c.sampling_sets@.map_values(|s: SamplingSet| sampling_model(s)),
    }
}

// ── Front matter ─────────────────────────────────────────────────────────────

/// What follows the opening `---` (and one newline right after it) when the
/// text, without leading whitespace, starts with `---`.
pub open spec fn fm_rest(text: Text) -> Option<Text> {
    let t = trim_start_by(text, ws());
    if starts_with(t, "---"@) {
        let r = t.skip(3);
        Some(
            if starts_with(r, "\n"@) {
                r.skip(1)
            } else {
                r
            },
        )
    } else {
        None
    }
}

/// The YAML front matter: the text between an opening `---` and the next
/// line that starts with `---`.
pub open spec fn spec_extract_frontmatter(text: Text) -> Option<Text> {
    match fm_rest(text) {
        Some(r) => {
            let e = find(r, "\n---"@);
            if e >= 0 {
                Some(r.take(e))
            } else {
                None
            }
        },
        None => None,
    }
}

/// The text after the front matter (and one newline after its closing
/// `---`), or the whole text without leading whitespace when it has none.
pub open spec fn spec_strip_frontmatter(text: Text) -> Text {
    let t = trim_start_by(text, ws());
    match fm_rest(text) {
        Some(r) => {
            let e = find(r, "\n---"@);
            if e >= 0 {
                let after = r.skip(e + 4);
                if starts_with(after, "\n"@) {
                    after.skip(1)
                } else {
                    after
                }
            } else {
                t
            }
        },
        None => t,
    }
}

/// `s` with every leading and trailing `c` removed (`str::trim_matches`).
pub open spec fn trim_char(s: Text, c: char) -> Text {
    trim_end_by(trim_start_by(s, in_set(seq![c])), in_set(seq![c]))
}

/// The front-matter fields: license, pipeline tag, base model, tags.
pub struct FrontMatter {
    pub license: Option<Text>,
    pub pipeline_tag: Option<Text>,
    pub base_model: Option<Text>,
    pub tags: Seq<Text>,
}

/// One front-matter line: `key: value` sets `license`, `pipeline_tag` or
/// `base_model` (key compared in lowercase, value trimmed and stripped of
/// quotes); `- item` adds a tag.
pub open spec fn fm_step(st: FrontMatter, line: Text) -> FrontMatter {
    let l = trim(line);
    let k = index_of(l, ':');
    if k >= 0 {
        let key = lowercase(trim(l.take(k)));
        let val = trim_char(trim_char(trim(l.skip(k + 1)), '"'), '\'');
        if key == "license"@ {
            FrontMatter { license: Some(val), ..st }
        } else if key == "pipeline_tag"@ {
            FrontMatter { pipeline_tag: Some(val), ..st }
        } else if key == "base_model"@ {
            FrontMatter { base_model: Some(val), ..st }
        } else {
            st
        }
    } else if starts_with(l, "- "@) {
        let tag = trim(strip_all(l, "- "@));
        if tag.len() > 0 {
            FrontMatter { tags: st.tags.push(tag), ..st }
        } else {
            st
        }
    } else {
        st
    }
}

/// The front-matter fields after reading `ls` in order.
pub open spec fn fm_fold(st: FrontMatter, ls: Seq<Text>) -> FrontMatter
    decreases ls.len(),
{
    if ls.len() == 0 {
        st
    } else {
        fm_step(fm_fold(st, ls.drop_last()), ls.last())
    }
}

// ── Overview ─────────────────────────────────────────────────────────────────

/// The first heading: the text of the first line that, trimmed, starts with
/// `# ` or `## `.
pub open spec fn spec_extract_heading(ls: Seq<Text>) -> Option<Text>
    decreases ls.len(),
{
    if ls.len() == 0 {
        None
    } else {
        let t = trim(ls[0]);
        if starts_with(t, "# "@) {
            Some(trim(t.skip(2)))
        } else if starts_with(t, "## "@) {
            Some(trim(t.skip(3)))
        } else {
            spec_extract_heading(ls.drop_first())
        }
    }
}

/// The trimmed text after the first `:`, when not empty.
pub open spec fn spec_value_after_colon(l: Text) -> Option<Text> {
    let k = index_of(l, ':');
    if k >= 0 && trim(l.skip(k + 1)).len() > 0 {
        Some(trim(l.skip(k + 1)))
    } else {
        None
    }
}

/// A line of the body as the overview reads it: trimmed, without leading
/// bullets (`•`, `-`, `*`, `+`), without `**`, trimmed again.
pub open spec fn overview_line(line: Text) -> Text {
    trim(replace_all(trim(trim_start_by(trim(line), in_set(seq!['•', '-', '*', '+']))), "**"@, ""@))
}

/// Whether `lower` contains one of the needles.
pub open spec fn any_contains(lower: Text, needles: Seq<Text>) -> bool {
    exists|i: int| 0 <= i < needles.len() && contains(lower, #[trigger] needles[i])
}

/// A field that is still unset takes the value after the colon of a line
/// that mentions one of its needles.
pub open spec fn assign(field: Option<Text>, l: Text, lower: Text, needles: Seq<Text>) -> Option<Text> {
    if field is None && any_contains(lower, needles) {
        spec_value_after_colon(l)
    } else {
        field
    }
}

pub open spec fn needles_architecture() -> Seq<Text> {
    seq!["architecture"@, "arch:"@]
}

pub open spec fn needles_parameters() -> Seq<Text> {
    seq!["number of parameters:"@, "num parameters"@, "total params"@]
}

pub open spec fn needles_non_embedding() -> Seq<Text> {
    seq!["non-embedding"@, "non_embedding"@]
}

pub open spec fn needles_layers() -> Seq<Text> {
    seq!["number of layers"@, "num_layers"@, "num layers"@]
}

pub open spec fn needles_heads() -> Seq<Text> {
    seq!["attention heads"@, "num_heads"@, "num heads"@]
}

pub open spec fn needles_context() -> Seq<Text> {
    seq!["context length"@, "context_length"@, "max position"@]
}

pub open spec fn needles_quantization() -> Seq<Text> {
    seq!["quantization:"@, "quantisation:"@]
}

/// The overview after reading one more line.
pub open spec fn overview_step(o: Overview, line: Text) -> Overview {
    let l = overview_line(line);
    let lower = lowercase(l);
    Overview {
        architecture: assign(o.architecture, l, lower, needles_architecture()),
        parameters: assign(o.parameters, l, lower, needles_parameters()),
        parameters_non_embedding: assign(
            o.parameters_non_embedding,
            l,
            lower,
            needles_non_embedding(),
        ),
        num_layers: assign(o.num_layers, l, lower, needles_layers()),
        attention_heads: assign(o.attention_heads, l, lower, needles_heads()),
        context_length: assign(o.context_length, l, lower, needles_context()),
        quantization: assign(o.quantization, l, lower, needles_quantization()),
    }
}

/// Law: an overview line fills each field that is still unset, and only
/// such a field, with the value after its colon when its lowercase form
/// mentions one of the field's phrases: `architecture` or `arch:` for the
/// architecture; `number of parameters:`, `num parameters` or `total params`
/// for the parameter count; `non-embedding` or `non_embedding` for the
/// non-embedding count; `number of layers`, `num_layers` or `num layers`;
/// `attention heads`, `num_heads` or `num heads`; `context length`,
/// `context_length` or `max position`; `quantization:` or `quantisation:`.
/// A field that is already set, or whose phrases the line does not mention,
/// keeps its value.
pub proof fn law_overview_fields(o: Overview, line: Text)
    ensures
        ({
            let l = overview_line(line);
            let lower = lowercase(l);
            let value = spec_value_after_colon(l);
            &&& (o.architecture is None && contains(lower, "architecture"@) ==> overview_step(o, line).architecture == value)
            &&& (o.architecture is None && contains(lower, "arch:"@) ==> overview_step(o, line).architecture == value)
            &&& (o.architecture is Some || (!contains(lower, "architecture"@) && !contains(lower, "arch:"@)) ==> overview_step(o, line).architecture == o.architecture)
            &&& (o.parameters is None && contains(lower, "number of parameters:"@) ==> overview_step(o, line).parameters == value)
            &&& (o.parameters is None && contains(lower, "num parameters"@) ==> overview_step(o, line).parameters == value)
            &&& (o.parameters is None && contains(lower, "total params"@) ==> overview_step(o, line).parameters == value)
            &&& (o.parameters is Some || (!contains(lower, "number of parameters:"@) && !contains(lower, "num parameters"@) && !contains(lower, "total params"@)) ==> overview_step(o, line).parameters == o.parameters)
            &&& (o.parameters_non_embedding is None && contains(lower, "non-embedding"@) ==> overview_step(o, line).parameters_non_embedding == value)
            &&& (o.parameters_non_embedding is None && contains(lower, "non_embedding"@) ==> overview_step(o, line).parameters_non_embedding == value)
            &&& (o.parameters_non_embedding is Some || (!contains(lower, "non-embedding"@) && !contains(lower, "non_embedding"@)) ==> overview_step(o, line).parameters_non_embedding == o.parameters_non_embedding)
            &&& (o.num_layers is None && contains(lower, "number of layers"@) ==> overview_step(o, line).num_layers == value)
            &&& (o.num_layers is None && contains(lower, "num_layers"@) ==> overview_step(o, line).num_layers == value)
            &&& (o.num_layers is None && contains(lower, "num layers"@) ==> overview_step(o, line).num_layers == value)
            &&& (o.num_layers is Some || (!contains(lower, "number of layers"@) && !contains(lower, "num_layers"@) && !contains(lower, "num layers"@)) ==> overview_step(o, line).num_layers == o.num_layers)
            &&& (o.attention_heads is None && contains(lower, "attention heads"@) ==> overview_step(o, line).attention_heads == value)
            &&& (o.attention_heads is None && contains(lower, "num_heads"@) ==> overview_step(o, line).attention_heads == value)
            &&& (o.attention_heads is None && contains(lower, "num heads"@) ==> overview_step(o, line).attention_heads == value)
            &&& (o.attention_heads is Some || (!contains(lower, "attention heads"@) && !contains(lower, "num_heads"@) && !contains(lower, "num heads"@)) ==> overview_step(o, line).attention_heads == o.attention_heads)
            &&& (o.context_length is None && contains(lower, "context length"@) ==> overview_step(o, line).context_length == value)
            &&& (o.context_length is None && contains(lower, "context_length"@) ==> overview_step(o, line).context_length == value)
            &&& (o.context_length is None && contains(lower, "max position"@) ==> overview_step(o, line).context_length == value)
            &&& (o.context_length is Some || (!contains(lower, "context length"@) && !contains(lower, "context_length"@) && !contains(lower, "max position"@)) ==> overview_step(o, line).context_length == o.context_length)
            &&& (o.quantization is None && contains(lower, "quantization:"@) ==> overview_step(o, line).quantization == value)
            &&& (o.quantization is None && contains(lower, "quantisation:"@) ==> overview_step(o, line).quantization == value)
            &&& (o.quantization is Some || (!contains(lower, "quantization:"@) && !contains(lower, "quantisation:"@)) ==> overview_step(o, line).quantization == o.quantization)
        }),
{
    assert(needles_architecture()[0] == "architecture"@);
    assert(needles_architecture()[1] == "arch:"@);
    assert(needles_architecture().len() == 2);
    assert(needles_parameters()[0] == "number of parameters:"@);
    assert(needles_parameters()[1] == "num parameters"@);
    assert(needles_parameters()[2] == "total params"@);
    assert(needles_parameters().len() == 3);
    assert(needles_non_embedding()[0] == "non-embedding"@);
    assert(needles_non_embedding()[1] == "non_embedding"@);
    assert(needles_non_embedding().len() == 2);
    assert(needles_layers()[0] == "number of layers"@);
    assert(needles_layers()[1] == "num_layers"@);
    assert(needles_layers()[2] == "num layers"@);
    assert(needles_layers().len() == 3);
    assert(needles_heads()[0] == "attention heads"@);
    assert(needles_heads()[1] == "num_heads"@);
    assert(needles_heads()[2] == "num heads"@);
    assert(needles_heads().len() == 3);
    assert(needles_context()[0] == "context length"@);
    assert(needles_context()[1] == "context_length"@);
    assert(needles_context()[2] == "max position"@);
    assert(needles_context().len() == 3);
    assert(needles_quantization()[0] == "quantization:"@);
    assert(needles_quantization()[1] == "quantisation:"@);
    assert(needles_quantization().len() == 2);
}

/// The overview after reading `ls` in order.
pub open spec fn overview_fold(o: Overview, ls: Seq<Text>) -> Overview
    decreases ls.len(),
{
    if ls.len() == 0 {
        o
    } else {
        overview_step(overview_fold(o, ls.drop_last()), ls.last())
    }
}

pub open spec fn empty_overview() -> Overview {
    Overview {
        architecture: None,
        parameters: None,
        parameters_non_embedding: None,
        num_layers: None,
        attention_heads: None,
        context_length: None,
        quantization: None,
    }
}

// ── Sampling parameters ──────────────────────────────────────────────────────

/// A set with a label and no parameters.
pub open spec fn empty_set(label: Text) -> SamplingModel {
    SamplingModel {
        label,
        temperature: None,
        top_p: None,
        top_k: None,
        min_p: None,
        presence_penalty: None,
        repetition_penalty: None,
        max_tokens: None,
        extra: Seq::empty(),
    }
}

/// The parameters a set can hold.
#[derive(Clone, Copy)]
pub enum Param {
    Temperature,
    TopP,
    TopK,
    MinP,
    PresencePenalty,
    RepetitionPenalty,
    MaxTokens,
}

/// The spellings that name each parameter in prose, in the order they are
/// tried.
pub open spec fn assignments() -> Seq<(Text, Param)> {
    seq![
        ("temperature"@, Param::Temperature),
        ("temp"@, Param::Temperature),
        ("top_p"@, Param::TopP),
        ("topp"@, Param::TopP),
        ("top-p"@, Param::TopP),
        ("top_k"@, Param::TopK),
        ("topk"@, Param::TopK),
        ("top-k"@, Param::TopK),
        ("min_p"@, Param::MinP),
        ("minp"@, Param::MinP),
        ("min-p"@, Param::MinP),
        ("presence_penalty"@, Param::PresencePenalty),
        ("presencepenalty"@, Param::PresencePenalty),
        ("presence-penalty"@, Param::PresencePenalty),
        ("repetition_penalty"@, Param::RepetitionPenalty),
        ("repetitionpenalty"@, Param::RepetitionPenalty),
        ("max_tokens"@, Param::MaxTokens),
        ("max_new_tokens"@, Param::MaxTokens),
        ("n_ctx"@, Param::MaxTokens),
    ]
}

/// Law: the spellings of the parameters in prose, in the order they are
/// tried — `temperature`, `temp`; `top_p`, `topp`, `top-p`; `top_k`,
/// `topk`, `top-k`; `min_p`, `minp`, `min-p`; `presence_penalty`,
/// `presencepenalty`, `presence-penalty`; `repetition_penalty`,
/// `repetitionpenalty`; `max_tokens`, `max_new_tokens`, `n_ctx` for the
/// maximum number of tokens — and a value read for a parameter fills that
/// parameter alone, only when it is still unset.
pub proof fn law_parameter_spellings(s: SamplingModel, v: Text)
    ensures
        assignments().len() == 19,
        assignments()[0] == ("temperature"@, Param::Temperature),
        assignments()[1] == ("temp"@, Param::Temperature),
        assignments()[2] == ("top_p"@, Param::TopP),
        assignments()[3] == ("topp"@, Param::TopP),
        assignments()[4] == ("top-p"@, Param::TopP),
        assignments()[5] == ("top_k"@, Param::TopK),
        assignments()[6] == ("topk"@, Param::TopK),
        assignments()[7] == ("top-k"@, Param::TopK),
        assignments()[8] == ("min_p"@, Param::MinP),
        assignments()[9] == ("minp"@, Param::MinP),
        assignments()[10] == ("min-p"@, Param::MinP),
        assignments()[11] == ("presence_penalty"@, Param::PresencePenalty),
        assignments()[12] == ("presencepenalty"@, Param::PresencePenalty),
        assignments()[13] == ("presence-penalty"@, Param::PresencePenalty),
        assignments()[14] == ("repetition_penalty"@, Param::RepetitionPenalty),
        assignments()[15] == ("repetitionpenalty"@, Param::RepetitionPenalty),
        assignments()[16] == ("max_tokens"@, Param::MaxTokens),
        assignments()[17] == ("max_new_tokens"@, Param::MaxTokens),
        assignments()[18] == ("n_ctx"@, Param::MaxTokens),
        set_if_unset(s, Param::Temperature, v) == (SamplingModel { temperature: if s.temperature is Some { s.temperature } else { Some(v) }, ..s }),
        set_if_unset(s, Param::TopP, v) == (SamplingModel { top_p: if s.top_p is Some { s.top_p } else { Some(v) }, ..s }),
        set_if_unset(s, Param::TopK, v) == (SamplingModel { top_k: if s.top_k is Some { s.top_k } else { Some(v) }, ..s }),
        set_if_unset(s, Param::MinP, v) == (SamplingModel { min_p: if s.min_p is Some { s.min_p } else { Some(v) }, ..s }),
        set_if_unset(s, Param::PresencePenalty, v) == (SamplingModel { presence_penalty: if s.presence_penalty is Some { s.presence_penalty } else { Some(v) }, ..s }),
        set_if_unset(s, Param::RepetitionPenalty, v) == (SamplingModel { repetition_penalty: if s.repetition_penalty is Some { s.repetition_penalty } else { Some(v) }, ..s }),
        set_if_unset(s, Param::MaxTokens, v) == (SamplingModel { max_tokens: if s.max_tokens is Some { s.max_tokens } else { Some(v) }, ..s }),
{
}

/// The set with parameter `p` set to `v` unless it already has a value.
pub open spec fn set_if_unset(s: SamplingModel, p: Param, v: Text) -> SamplingModel {
    match p {
        Param::Temperature => SamplingModel {
            temperature: if s.temperature is Some { s.temperature } else { Some(v) },
            ..s
        },
        Param::TopP => SamplingModel { top_p: if s.top_p is Some { s.top_p } else { Some(v) }, ..s },
        Param::TopK => SamplingModel { top_k: if s.top_k is Some { s.top_k } else { Some(v) }, ..s },
        Param::MinP => SamplingModel { min_p: if s.min_p is Some { s.min_p } else { Some(v) }, ..s },
        Param::PresencePenalty => SamplingModel {
            presence_penalty: if s.presence_penalty is Some {
                s.presence_penalty
            } else {
                Some(v)
            },
            ..s
        },
        Param::RepetitionPenalty => SamplingModel {
            repetition_penalty: if s.repetition_penalty is Some {
                s.repetition_penalty
            } else {
                Some(v)
            },
            ..s
        },
        Param::MaxTokens => SamplingModel {
            max_tokens: if s.max_tokens is Some { s.max_tokens } else { Some(v) },
            ..s
        },
    }
}

/// Position of the first occurrence of the bytes `p` in `s`, or `-1`.
pub open spec fn find_bytes(s: Seq<u8>, p: Seq<u8>) -> int
    decreases s.len(),
{
    if p.len() <= s.len() && s.take(p.len() as int) == p {
        0
    } else if s.len() == 0 {
        -1
    } else {
        let r = find_bytes(s.drop_first(), p);
        if r < 0 {
            -1
        } else {
            r + 1
        }
    }
}

/// The byte position in `line` where a value after `key` starts: after the
/// first occurrence of the lowercased key in the lowercased line, measured
/// in the lowercased line and advanced by the key's length.
pub open spec fn numeric_cut(line: Text, key: Text) -> Option<int> {
    let pos = find_bytes(encode_utf8(lowercase(line)), encode_utf8(lowercase(key)));
    if pos < 0 {
        None
    } else {
        Some(pos + encode_utf8(key).len())
    }
}

/// The value position of [`numeric_cut`] falls on a character boundary of
/// `line` (always so for ASCII text).
pub open spec fn numeric_ok(line: Text, key: Text) -> bool {
    match numeric_cut(line, key) {
        Some(c) => is_char_boundary(encode_utf8(line), c),
        None => true,
    }
}

/// Length of the leading run of ASCII digits, `.` and `-`.
pub open spec fn number_len(s: Text) -> nat
    decreases s.len(),
{
    if s.len() > 0 && (('0' <= s[0] && s[0] <= '9') || s[0] == '.' || s[0] == '-') {
        1 + number_len(s.drop_first())
    } else {
        0
    }
}

pub open spec fn is_ascii_letter(c: char) -> bool {
    ('a' <= c && c <= 'z') || ('A' <= c && c <= 'Z')
}

/// Length of the leading run of ASCII letters.
pub open spec fn letter_len(s: Text) -> nat
    decreases s.len(),
{
    if s.len() > 0 && is_ascii_letter(s[0]) {
        1 + letter_len(s.drop_first())
    } else {
        0
    }
}

/// `c` is the lowercase ASCII letter `t` in either case.
pub open spec fn same_letter(c: char, t: char) -> bool {
    c == t || (c as u32) + 32 == (t as u32)
}

/// `w` spells `word` (lowercase ASCII) in any ASCII case.
pub open spec fn spells(w: Text, word: Seq<char>) -> bool {
    w.len() == word.len() && forall|i: int| 0 <= i < w.len() ==> same_letter(#[trigger] w[i], word[i])
}

/// A boolean word: `true` or `false` in any ASCII case.
pub open spec fn bool_word(w: Text) -> bool {
    spells(w, seq!['t', 'r', 'u', 'e']) || spells(w, seq!['f', 'a', 'l', 's', 'e'])
}

/// The value token at the start of `s`: a number (the leading run of ASCII
/// digits, `.` and `-`), or else a leading word that is a boolean.
pub open spec fn value_token(s: Text) -> Text {
    if number_len(s) > 0 {
        s.take(number_len(s) as int)
    } else if bool_word(s.take(letter_len(s) as int)) {
        s.take(letter_len(s) as int)
    } else {
        Seq::empty()
    }
}

/// The numeric or boolean value after `key` in `line` (as `key=0.6`,
/// `key: 0.6` or `key 0.6`): the value token (see [`value_token`]) after the
/// key and any `=`, `:`, spaces and tabs.
pub open spec fn spec_extract_numeric_value(line: Text, key: Text) -> Option<Text> {
    match numeric_cut(line, key) {
        Some(c) => {
            let after = trim_start_by(
                decode_utf8(encode_utf8(line).skip(c)),
                in_set(seq!['=', ':', ' ', '\t']),
            );
            let tok = value_token(after);
            if tok.len() > 0 {
                Some(tok)
            } else {
                None
            }
        },
        None => None,
    }
}

/// The set after trying the first `n` spellings on `line`; `None` where a
/// value position falls inside a character.
pub open spec fn params_fold(line: Text, set: SamplingModel, n: nat) -> Option<SamplingModel>
    decreases n,
{
    if n == 0 {
        Some(set)
    } else {
        match params_fold(line, set, (n - 1) as nat) {
            None => None,
            Some(s) => {
                let (needle, p) = assignments()[n - 1];
                if contains(lowercase(line), needle) {
                    if numeric_ok(line, needle) {
                        match spec_extract_numeric_value(line, needle) {
                            Some(v) => Some(set_if_unset(s, p, v)),
                            None => Some(s),
                        }
                    } else {
                        None
                    }
                } else {
                    Some(s)
                }
            },
        }
    }
}

/// The set after reading the parameters named in `line`: for each spelling
/// that the lowercased line contains, in order, the number after it fills
/// its parameter unless that is already set.
pub open spec fn spec_extract_params_from_line(line: Text, set: SamplingModel) -> Option<SamplingModel> {
    params_fold(line, set, 19)
}

/// A flag value without trailing `,`, `;`, `'` and `"`.
pub open spec fn flag_value(w: Text) -> Text {
    trim_end_by(w, in_set(seq![',', ';', '\'', '"']))
}

/// The set after one llama.cpp flag and its value.
pub open spec fn cli_step(s: SamplingModel, tok: Text, val: Text) -> SamplingModel {
    if tok == "--temp"@ || tok == "--temperature"@ {
        SamplingModel { temperature: Some(val), ..s }
    } else if tok == "--top-p"@ {
        SamplingModel { top_p: Some(val), ..s }
    } else if tok == "--top-k"@ {
        SamplingModel { top_k: Some(val), ..s }
    } else if tok == "--min-p"@ {
        SamplingModel { min_p: Some(val), ..s }
    } else if tok == "--presence-penalty"@ {
        SamplingModel { presence_penalty: Some(val), ..s }
    } else if tok == "--repeat-penalty"@ || tok == "--repetition-penalty"@ {
        SamplingModel { repetition_penalty: Some(val), ..s }
    } else if tok == "-n"@ || tok == "--n-predict"@ {
        SamplingModel { max_tokens: Some(val), ..s }
    } else {
        s
    }
}

/// Law: each llama.cpp flag sets its own parameter to the value that
/// follows it and leaves every other parameter as it was (`--temp` and
/// `--temperature` the temperature, `--top-p`, `--top-k`, `--min-p`,
/// `--presence-penalty` their namesakes, `--repeat-penalty` and
/// `--repetition-penalty` the repetition penalty, `-n` and `--n-predict` the
/// maximum number of tokens); any other word changes nothing.
pub proof fn law_cli_flags(s: SamplingModel, tok: Text, v: Text)
    ensures
        cli_step(s, "--temp"@, v) == (SamplingModel { temperature: Some(v), ..s }),
        cli_step(s, "--temperature"@, v) == (SamplingModel { temperature: Some(v), ..s }),
        cli_step(s, "--top-p"@, v) == (SamplingModel { top_p: Some(v), ..s }),
        cli_step(s, "--top-k"@, v) == (SamplingModel { top_k: Some(v), ..s }),
        cli_step(s, "--min-p"@, v) == (SamplingModel { min_p: Some(v), ..s }),
        cli_step(s, "--presence-penalty"@, v) == (SamplingModel { presence_penalty: Some(v), ..s }),
        cli_step(s, "--repeat-penalty"@, v) == (SamplingModel { repetition_penalty: Some(v), ..s }),
        cli_step(s, "--repetition-penalty"@, v) == (SamplingModel { repetition_penalty: Some(v), ..s }),
        cli_step(s, "-n"@, v) == (SamplingModel { max_tokens: Some(v), ..s }),
        cli_step(s, "--n-predict"@, v) == (SamplingModel { max_tokens: Some(v), ..s }),
        tok != "--temp"@ && tok != "--temperature"@ && tok != "--top-p"@ && tok != "--top-k"@ && tok != "--min-p"@ && tok != "--presence-penalty"@ && tok != "--repeat-penalty"@ && tok != "--repetition-penalty"@ && tok != "-n"@ && tok != "--n-predict"@ ==> cli_step(s, tok, v) == s,
{
    reveal_strlit("--temp");
    reveal_strlit("--temperature");
    reveal_strlit("--top-p");
    reveal_strlit("--top-k");
    reveal_strlit("--min-p");
    reveal_strlit("--presence-penalty");
    reveal_strlit("--repeat-penalty");
    reveal_strlit("--repetition-penalty");
    reveal_strlit("-n");
    reveal_strlit("--n-predict");
    assert("--temp"@.len() == 6);
    assert("--temperature"@.len() == 13);
    assert("--top-p"@.len() == 7);
    assert("--top-k"@.len() == 7);
    assert("--min-p"@.len() == 7);
    assert("--presence-penalty"@.len() == 18);
    assert("--repeat-penalty"@.len() == 16);
    assert("--repetition-penalty"@.len() == 20);
    assert("-n"@.len() == 2);
    assert("--n-predict"@.len() == 11);
    assert("--top-p"@[6] != "--top-k"@[6]);
    assert("--top-p"@[2] != "--min-p"@[2]);
    assert("--top-k"@[2] != "--min-p"@[2]);
    assert("--temp"@ != "--temperature"@);
    assert("--temp"@ != "--top-p"@);
    assert("--temp"@ != "--top-k"@);
    assert("--temp"@ != "--min-p"@);
    assert("--temp"@ != "--presence-penalty"@);
    assert("--temp"@ != "--repeat-penalty"@);
    assert("--temp"@ != "--repetition-penalty"@);
    assert("--temp"@ != "-n"@);
    assert("--temp"@ != "--n-predict"@);
    assert("--temperature"@ != "--top-p"@);
    assert("--temperature"@ != "--top-k"@);
    assert("--temperature"@ != "--min-p"@);
    assert("--temperature"@ != "--presence-penalty"@);
    assert("--temperature"@ != "--repeat-penalty"@);
    assert("--temperature"@ != "--repetition-penalty"@);
    assert("--temperature"@ != "-n"@);
    assert("--temperature"@ != "--n-predict"@);
    assert("--top-p"@ != "--top-k"@);
    assert("--top-p"@ != "--min-p"@);
    assert("--top-p"@ != "--presence-penalty"@);
    assert("--top-p"@ != "--repeat-penalty"@);
    assert("--top-p"@ != "--repetition-penalty"@);
    assert("--top-p"@ != "-n"@);
    assert("--top-p"@ != "--n-predict"@);
    assert("--top-k"@ != "--min-p"@);
    assert("--top-k"@ != "--presence-penalty"@);
    assert("--top-k"@ != "--repeat-penalty"@);
    assert("--top-k"@ != "--repetition-penalty"@);
    assert("--top-k"@ != "-n"@);
    assert("--top-k"@ != "--n-predict"@);
    assert("--min-p"@ != "--presence-penalty"@);
    assert("--min-p"@ != "--repeat-penalty"@);
    assert("--min-p"@ != "--repetition-penalty"@);
    assert("--min-p"@ != "-n"@);
    assert("--min-p"@ != "--n-predict"@);
    assert("--presence-penalty"@ != "--repeat-penalty"@);
    assert("--presence-penalty"@ != "--repetition-penalty"@);
    assert("--presence-penalty"@ != "-n"@);
    assert("--presence-penalty"@ != "--n-predict"@);
    assert("--repeat-penalty"@ != "--repetition-penalty"@);
    assert("--repeat-penalty"@ != "-n"@);
    assert("--repeat-penalty"@ != "--n-predict"@);
    assert("--repetition-penalty"@ != "-n"@);
    assert("--repetition-penalty"@ != "--n-predict"@);
    assert("-n"@ != "--n-predict"@);
}

/// The set after reading, for each word from position `j` on that has a
/// following word, that word as a flag and the following word as its value:
/// each recognised flag takes the next word, wherever it stands, and a later
/// flag overrides an earlier one.
pub open spec fn cli_from(ws: Seq<Text>, j: nat, s: SamplingModel) -> SamplingModel
    decreases ws.len() - j,
{
    if j + 1 >= ws.len() {
        s
    } else {
        cli_from(ws, j + 1, cli_step(s, ws[j as int], flag_value(ws[(j + 1) as int])))
    }
}

/// The set after reading llama.cpp-style flags (`--temp 0.6 --top-k 20 …`).
pub open spec fn spec_extract_cli_flags(line: Text, s: SamplingModel) -> SamplingModel {
    cli_from(words(line), 0, s)
}

/// A line as a label: trimmed, without leading `#`, `-`, `*`, `>` and
/// spaces, without `*`, `_` and backquotes, trimmed again.
pub open spec fn label_text(line: Text) -> Text {
    trim(
        remove_set(
            trim_start_by(trim(line), in_set(seq!['#', '-', '*', '>', ' '])),
            seq!['*', '_', '`'],
        ),
    )
}

/// Law: a label holds no `*`, `_` or backquote and no leading or trailing
/// whitespace.
pub proof fn law_label_clean(line: Text)
    ensures
        forall|i: int|
            0 <= i < label_text(line).len() ==> #[trigger] label_text(line)[i] != '*' && label_text(
                line,
            )[i] != '_' && label_text(line)[i] != '`',
        label_text(line).len() > 0 ==> !is_ws(label_text(line)[0]) && !is_ws(label_text(line).last()),
{
    let set = seq!['*', '_', '`'];
    let r = remove_set(trim_start_by(trim(line), in_set(seq!['#', '-', '*', '>', ' '])), set);
    lemma_remove_set_excludes(trim_start_by(trim(line), in_set(seq!['#', '-', '*', '>', ' '])), set);
    lemma_trim_within(r);
    assert forall|i: int| 0 <= i < label_text(line).len() implies #[trigger] label_text(line)[i] != '*'
        && label_text(line)[i] != '_' && label_text(line)[i] != '`' by {
        let c = label_text(line)[i];
        assert(r.contains(c));
        let j = choose|j: int| 0 <= j < r.len() && r[j] == c;
        assert(!set.contains(r[j]));
        assert(set[0] == '*' && set[1] == '_' && set[2] == '`');
    }
    lemma_trim_ends(r);
}

/// A label longer than 80 bytes is cut at byte 79, which must be a character
/// boundary.
pub open spec fn label_ok(line: Text) -> bool {
    let b = encode_utf8(label_text(line));
    b.len() > 80 ==> is_char_boundary(b, 79)
}

/// The label of a line, cut to its first 79 bytes and `…` when longer than
/// 80 bytes.
pub open spec fn spec_clean_label(line: Text) -> Text {
    let l = label_text(line);
    let b = encode_utf8(l);
    if b.len() > 80 {
        decode_utf8(b.take(79)) + "…"@
    } else {
        l
    }
}

/// The nearest of the (at most `steps`) lines at `j`, `j - 1`, … that is not
/// blank and does not open a code fence.
pub open spec fn label_line_from(ls: Seq<Text>, j: int, steps: nat) -> Option<int>
    decreases steps,
{
    if steps == 0 || j < 0 || j >= ls.len() {
        None
    } else {
        let t = trim(ls[j]);
        if t.len() > 0 && !starts_with(t, "```"@) {
            Some(j)
        } else {
            label_line_from(ls, j - 1, (steps - 1) as nat)
        }
    }
}

/// The label for a flag line: that of the nearest of the five lines before
/// line `i` that is not blank and no code fence, or `llama.cpp invocation`.
pub open spec fn spec_find_preceding_label(ls: Seq<Text>, i: int) -> Text {
    match label_line_from(ls, i - 1, 5) {
        Some(j) => spec_clean_label(trim(ls[j])),
        None => "llama.cpp invocation"@,
    }
}

pub open spec fn preceding_label_ok(ls: Seq<Text>, i: int) -> bool {
    match label_line_from(ls, i - 1, 5) {
        Some(j) => label_ok(trim(ls[j])),
        None => true,
    }
}

/// Whether a set holds at least one of the six sampling parameters.
pub open spec fn spec_has_any(s: SamplingModel) -> bool {
    s.temperature is Some || s.top_p is Some || s.top_k is Some || s.min_p is Some
        || s.presence_penalty is Some || s.repetition_penalty is Some
}

/// The set after reading the parameters of lines `lo..hi`.
pub open spec fn window_fold(ls: Seq<Text>, lo: int, hi: int, s: SamplingModel) -> Option<SamplingModel>
    decreases hi - lo,
{
    if hi <= lo {
        Some(s)
    } else {
        match window_fold(ls, lo, hi - 1, s) {
            Some(t) => spec_extract_params_from_line(ls[hi - 1], t),
            None => None,
        }
    }
}

/// A line that introduces sampling parameters.
pub open spec fn is_context_line(line: Text) -> bool {
    let lower = lowercase(line);
    contains(lower, "thinking mode"@) || contains(lower, "non-thinking"@) || contains(
        lower,
        "sampling param"@,
    ) || contains(lower, "best practice"@)
}

/// Law: a line opens a sampling set exactly when its lowercase form
/// mentions `thinking mode`, `non-thinking`, `sampling param` or
/// `best practice`; a line holds llama.cpp flags exactly when it contains
/// `--temp` (which `--temperature` also contains).
pub proof fn law_section_phrases(line: Text)
    ensures
        is_context_line(line) <==> (contains(lowercase(line), "thinking mode"@) || contains(
            lowercase(line),
            "non-thinking"@,
        ) || contains(lowercase(line), "sampling param"@) || contains(
            lowercase(line),
            "best practice"@,
        )),
        is_flag_line(line) <==> contains(line, "--temp"@),
{
    reveal_strlit("--temp");
    reveal_strlit("--temperature");
    if contains(line, "--temperature"@) {
        let k = find(line, "--temperature"@);
        lemma_find(line, "--temperature"@);
        assert(line.skip(k).take(6) =~= "--temp"@);
        lemma_find(line, "--temp"@);
        if find(line, "--temp"@) < 0 {
            assert(!starts_with(line.skip(k), "--temp"@));
        }
    }
}

/// A line holding llama.cpp temperature flags.
pub open spec fn is_flag_line(line: Text) -> bool {
    contains(line, "--temp"@) || contains(line, "--temperature"@)
}

/// The set (if it has a parameter) that line `i` opens as a context line:
/// labelled by the line and filled from it and the next 14 lines.
pub open spec fn context_set(ls: Seq<Text>, i: int) -> Option<Seq<SamplingModel>> {
    if !is_context_line(ls[i]) {
        Some(Seq::empty())
    } else if !label_ok(ls[i]) {
        None
    } else {
        let hi = if i + 15 < ls.len() {
            i + 15
        } else {
            ls.len() as int
        };
        match window_fold(ls, i, hi, empty_set(spec_clean_label(ls[i]))) {
            Some(s) => Some(
                if spec_has_any(s) {
                    seq![s]
                } else {
                    Seq::empty()
                },
            ),
            None => None,
        }
    }
}

/// The set (if it has a parameter) that line `i` gives as a flag line.
pub open spec fn flag_set(ls: Seq<Text>, i: int) -> Option<Seq<SamplingModel>> {
    if !is_flag_line(ls[i]) {
        Some(Seq::empty())
    } else if !preceding_label_ok(ls, i) {
        None
    } else {
        let s = spec_extract_cli_flags(ls[i], empty_set(spec_find_preceding_label(ls, i)));
        Some(
            if spec_has_any(s) {
                seq![s]
            } else {
                Seq::empty()
            },
        )
    }
}

/// The sets found in lines `0..i`, in order.
pub open spec fn sets_upto(ls: Seq<Text>, i: int) -> Option<Seq<SamplingModel>>
    decreases i,
{
    if i <= 0 {
        Some(Seq::empty())
    } else {
        match sets_upto(ls, i - 1) {
            Some(a) => match context_set(ls, i - 1) {
                Some(b) => match flag_set(ls, i - 1) {
                    Some(c) => Some(a + b + c),
                    None => None,
                },
                None => None,
            },
            None => None,
        }
    }
}

/// Two sets that count as repeats: same label and same temperature.
pub open spec fn same_set(a: SamplingModel, b: SamplingModel) -> bool {
    a.label == b.label && a.temperature == b.temperature
}

/// Runs of repeated sets reduced to their first (`Vec::dedup_by`).
pub open spec fn dedup(s: Seq<SamplingModel>) -> Seq<SamplingModel>
    decreases s.len(),
{
    if s.len() <= 1 {
        s
    } else {
        let d = dedup(s.drop_last());
        if same_set(d.last(), s.last()) {
            d
        } else {
            d.push(s.last())
        }
    }
}

/// The sampling sets of a body, in order, without repeats.
pub open spec fn spec_parse_sampling(body: Text) -> Option<Seq<SamplingModel>> {
    let ls = lines(body);
    match sets_upto(ls, ls.len() as int) {
        Some(s) => Some(dedup(s)),
        None => None,
    }
}

/// What a model card says: front-matter fields, the first heading as the
/// model name, the overview fields and the sampling sets; `None` where a
/// label or value would be cut inside a character.
pub open spec fn spec_parse(text: Text) -> Option<CardModel> {
    let fm0 = FrontMatter { license: None, pipeline_tag: None, base_model: None, tags: Seq::empty() };
    let fm = match spec_extract_frontmatter(text) {
        Some(f) => fm_fold(fm0, lines(f)),
        None => fm0,
    };
    let body = spec_strip_frontmatter(text);
    let ls = lines(body);
    match spec_parse_sampling(body) {
        Some(ss) => Some(
            CardModel {
                license: fm.license,
                pipeline_tag: fm.pipeline_tag,
                tags: fm.tags,
                base_model: fm.base_model,
                model_name: spec_extract_heading(ls),
                overview: overview_fold(empty_overview(), ls),
                sampling_sets: ss,
            },
        ),
        None => None,
    }
}

// ── Reading the front matter ─────────────────────────────────────────────────

/// The window of `v` after the opening `---` of front matter (and one
/// newline), when `v` without leading whitespace starts with `---`.
fn fm_rest_start(v: &Vec<char>) -> (r: Option<usize>)
    ensures
        match fm_rest(v@) {
            Some(rest) => r matches Some(b) && b <= v@.len() && v@.skip(b as int) == rest,
            None => r is None,
        },
{
    let n = v.len();
    let a = trim_start_ws(v, 0, n);
    proof {
        assert(v@.subrange(0, n as int) =~= v@);
        assert(v@.subrange(a as int, n as int) =~= v@.skip(a as int));
    }
    let dashes = chars_of("---");
    proof {
        reveal_strlit("---");
        reveal_strlit("\n");
    }
    if !starts_with_at(v, a, n, &dashes) {
        return None;
    }
    let nl = chars_of("\n");
    let mut b = a + 3;
    proof {
        assert(v@.skip(a as int).skip(3) =~= v@.subrange(b as int, n as int));
    }
    if starts_with_at(v, b, n, &nl) {
        proof {
            assert(v@.subrange(b as int, n as int).skip(1) =~= v@.subrange(b + 1, n as int));
        }
        b = b + 1;
    }
    proof {
        assert(v@.subrange(b as int, n as int) =~= v@.skip(b as int));
    }
    Some(b)
}

/// The YAML front matter of a model card, if it has one.
pub fn extract_frontmatter(text: &str) -> (r: Option<String>)
    ensures
        opt_view(r) == spec_extract_frontmatter(text@),
{
    let v = chars_of(text);
    let n = v.len();
    let b = match fm_rest_start(&v) {
        Some(b) => b,
        None => return None,
    };
    let close = chars_of("\n---");
    proof {
        assert(v@.subrange(b as int, n as int) =~= v@.skip(b as int));
    }
    match find_in(&v, b, n, &close) {
        Some(e) => {
            proof {
                assert(v@.skip(b as int).take(e as int) =~= v@.subrange(b as int, (b + e) as int));
            }
            Some(window_string(&v, b, b + e))
        },
        None => None,
    }
}

/// The body of a model card: the text after its front matter.
pub fn strip_frontmatter(text: &str) -> (r: String)
    ensures
        r@ == spec_strip_frontmatter(text@),
{
    let v = chars_of(text);
    let n = v.len();
    let a = trim_start_ws(&v, 0, n);
    proof {
        assert(v@.subrange(0, n as int) =~= v@);
    }
    let b = match fm_rest_start(&v) {
        Some(b) => b,
        None => return window_string(&v, a, n),
    };
    let close = chars_of("\n---");
    proof {
        assert(v@.subrange(b as int, n as int) =~= v@.skip(b as int));
    }
    proof {
        reveal_strlit("\n---");
        reveal_strlit("\n");
    }
    match find_in(&v, b, n, &close) {
        Some(e) => {
            proof {
                crate::chars::lemma_find(v@.subrange(b as int, n as int), close@);
            }
            let mut c = b + e + 4;
            proof {
                assert(v@.skip(b as int).skip(e + 4) =~= v@.subrange(c as int, n as int));
            }
            let nl = chars_of("\n");
            if starts_with_at(&v, c, n, &nl) {
                proof {
                    assert(v@.subrange(c as int, n as int).skip(1) =~= v@.subrange(c + 1, n as int));
                }
                c = c + 1;
            }
            window_string(&v, c, n)
        },
        None => window_string(&v, a, n),
    }
}

/// The window of `v[lo..hi]` without leading and trailing `c`.
fn trim_char_in(v: &Vec<char>, lo: usize, hi: usize, c: char) -> (r: (usize, usize))
    requires
        lo <= hi <= v@.len(),
    ensures
        lo <= r.0 <= r.1 <= hi,
        v@.subrange(r.0 as int, r.1 as int) == trim_char(v@.subrange(lo as int, hi as int), c),
{
    let set = vec![c];
    proof {
        assert(set@ =~= seq![c]);
    }
    let a = trim_start_set(v, lo, hi, &set);
    let b = trim_end_set(v, a, hi, &set);
    (a, b)
}

/// Whether the lowercase form of `v[lo..hi]` is `word`.
fn lowered_is(v: &Vec<char>, lo: usize, hi: usize, word: &str) -> (b: bool)
    requires
        lo <= hi <= v@.len(),
    ensures
        b == (lowercase(v@.subrange(lo as int, hi as int)) == word@),
{
    let s = window_string(v, lo, hi);
    let l = to_lowercase(s.as_str());
    crate::text::str_eq(l.as_str(), word)
}

pub open spec fn fm_of(c: ModelCard) -> FrontMatter {
    FrontMatter {
        license: opt_view(c.license),
        pipeline_tag: opt_view(c.pipeline_tag),
        base_model: opt_view(c.base_model),
        tags: c.tags@.map_values(|t: String| t@),
    }
}

/// Read the front matter `fm` into `card`'s license, pipeline tag, base model
/// and tags.
fn parse_frontmatter(fm: &str, card: &mut ModelCard)
    ensures
        fm_of(*final(card)) == fm_fold(fm_of(*old(card)), lines(fm@)),
        final(card).model_name == old(card).model_name,
        final(card).architecture == old(card).architecture,
        final(card).parameters == old(card).parameters,
        final(card).parameters_non_embedding == old(card).parameters_non_embedding,
        final(card).num_layers == old(card).num_layers,
        final(card).attention_heads == old(card).attention_heads,
        final(card).context_length == old(card).context_length,
        final(card).quantization == old(card).quantization,
        final(card).sampling_sets == old(card).sampling_sets,
{
    let v = chars_of(fm);
    let ls = line_windows(&v);
    let ghost lv = ls@.map_values(|w: (usize, usize)| v@.subrange(w.0 as int, w.1 as int));
    let mut i: usize = 0;
    while i < ls.len()
        invariant
            v@ == fm@,
            lv == ls@.map_values(|w: (usize, usize)| v@.subrange(w.0 as int, w.1 as int)),
            lv == lines(fm@),
            forall|j: int| 0 <= j < ls@.len() ==> (#[trigger] ls@[j]).0 <= ls@[j].1 <= v@.len(),
            i <= ls@.len(),
            fm_of(*card) == fm_fold(fm_of(*old(card)), lv.take(i as int)),
            card.model_name == old(card).model_name,
            card.architecture == old(card).architecture,
            card.parameters == old(card).parameters,
            card.parameters_non_embedding == old(card).parameters_non_embedding,
            card.num_layers == old(card).num_layers,
            card.attention_heads == old(card).attention_heads,
            card.context_length == old(card).context_length,
            card.quantization == old(card).quantization,
            card.sampling_sets == old(card).sampling_sets,
        decreases ls@.len() - i,
    {
        let (lo, hi) = ls[i];
        let ghost line = lv[i as int];
        let ghost before = fm_of(*card);
        proof {
            assert(lv.take(i + 1).drop_last() =~= lv.take(i as int));
            assert(line == v@.subrange(lo as int, hi as int));
        }
        let (l0, l1) = trim_ws(&v, lo, hi);
        let ghost l = trim(line);
        match find_char_in(&v, l0, l1, ':') {
            Some(k) => {
                proof {
                    assert(l.take(k as int) =~= v@.subrange(l0 as int, (l0 + k) as int));
                    assert(l.skip(k + 1) =~= v@.subrange((l0 + k + 1) as int, l1 as int));
                }
                let (k0, k1) = trim_ws(&v, l0, l0 + k);
                let (a0, a1) = trim_ws(&v, l0 + k + 1, l1);
                let (b0, b1) = trim_char_in(&v, a0, a1, '"');
                let (c0, c1) = trim_char_in(&v, b0, b1, '\'');
                let val = window_string(&v, c0, c1);
                if lowered_is(&v, k0, k1, "license") {
                    card.license = Some(val);
                } else if lowered_is(&v, k0, k1, "pipeline_tag") {
                    card.pipeline_tag = Some(val);
                } else if lowered_is(&v, k0, k1, "base_model") {
                    card.base_model = Some(val);
                }
            },
            None => {
                let dash = chars_of("- ");
                if starts_with_at(&v, l0, l1, &dash) {
                    let s0 = strip_all_in(&v, l0, l1, &dash);
                    let (t0, t1) = trim_ws(&v, s0, l1);
                    if t1 > t0 {
                        let ghost tags_before = card.tags@;
                        card.tags.push(window_string(&v, t0, t1));
                        proof {
                            assert(card.tags@.map_values(|t: String| t@) =~= tags_before.map_values(
                                |t: String| t@,
                            ).push(v@.subrange(t0 as int, t1 as int)));
                        }
                    }
                }
            },
        }
        proof {
            assert(fm_of(*card) == fm_step(before, line));
        }
        i = i + 1;
    }
    proof {
        assert(lv.take(ls@.len() as int) =~= lv);
    }
}

// ── Reading the overview ─────────────────────────────────────────────────────

/// The model name: the first `# ` or `## ` heading of the body.
fn extract_heading(body: &str) -> (r: Option<String>)
    ensures
        opt_view(r) == spec_extract_heading(lines(body@)),
{
    let v = chars_of(body);
    let ls = line_windows(&v);
    let ghost lv = ls@.map_values(|w: (usize, usize)| v@.subrange(w.0 as int, w.1 as int));
    let h1 = chars_of("# ");
    let h2 = chars_of("## ");
    proof {
        reveal_strlit("# ");
        reveal_strlit("## ");
        assert(lv.skip(0) =~= lv);
    }
    let mut i: usize = 0;
    while i < ls.len()
        invariant
            lv == ls@.map_values(|w: (usize, usize)| v@.subrange(w.0 as int, w.1 as int)),
            lv == lines(body@),
            forall|j: int| 0 <= j < ls@.len() ==> (#[trigger] ls@[j]).0 <= ls@[j].1 <= v@.len(),
            i <= ls@.len(),
            h1@ == "# "@,
            h2@ == "## "@,
            h1@.len() == 2,
            h2@.len() == 3,
            spec_extract_heading(lv) == spec_extract_heading(lv.skip(i as int)),
        decreases ls@.len() - i,
    {
        let (lo, hi) = ls[i];
        let (t0, t1) = trim_ws(&v, lo, hi);
        let ghost t = v@.subrange(t0 as int, t1 as int);
        proof {
            assert(lv.skip(i as int)[0] == v@.subrange(lo as int, hi as int));
            assert(lv.skip(i as int).drop_first() =~= lv.skip(i + 1));
        }
        if starts_with_at(&v, t0, t1, &h1) {
            let (a, b) = trim_ws(&v, t0 + 2, t1);
            proof {
                assert(t.skip(2) =~= v@.subrange(t0 + 2, t1 as int));
            }
            return Some(window_string(&v, a, b));
        }
        if starts_with_at(&v, t0, t1, &h2) {
            let (a, b) = trim_ws(&v, t0 + 3, t1);
            proof {
                assert(t.skip(3) =~= v@.subrange(t0 + 3, t1 as int));
            }
            return Some(window_string(&v, a, b));
        }
        i = i + 1;
    }
    proof {
        assert(lv.skip(lv.len() as int) =~= Seq::<Text>::empty());
    }
    None
}

/// The trimmed text after the first `:` of `v[lo..hi]`, when not empty.
fn value_after_colon_in(v: &Vec<char>, lo: usize, hi: usize) -> (r: Option<String>)
    requires
        lo <= hi <= v@.len(),
    ensures
        opt_view(r) == spec_value_after_colon(v@.subrange(lo as int, hi as int)),
{
    match find_char_in(v, lo, hi, ':') {
        Some(k) => {
            proof {
                assert(v@.subrange(lo as int, hi as int).skip(k + 1) =~= v@.subrange(
                    lo + k + 1,
                    hi as int,
                ));
            }
            let (a, b) = trim_ws(v, lo + k + 1, hi);
            if b > a {
                Some(window_string(v, a, b))
            } else {
                None
            }
        },
        None => None,
    }
}

/// The trimmed text after the first `:` of `line`, when not empty.
pub fn extract_value_after_colon(line: &str) -> (r: Option<String>)
    ensures
        opt_view(r) == spec_value_after_colon(line@),
{
    let v = chars_of(line);
    proof {
        assert(v@.subrange(0, v@.len() as int) =~= v@);
    }
    value_after_colon_in(&v, 0, v.len())
}

/// Whether `lower` contains one of `needles`.
fn mentions(lower: &Vec<char>, needles: &[&str]) -> (b: bool)
    ensures
        b == any_contains(lower@, needles@.map_values(|s: &str| s@)),
{
    let ghost ns = needles@.map_values(|s: &str| s@);
    let n = lower.len();
    proof {
        assert(lower@.subrange(0, n as int) =~= lower@);
    }
    let mut i: usize = 0;
    while i < needles.len()
        invariant
            ns == needles@.map_values(|s: &str| s@),
            n == lower@.len(),
            lower@.subrange(0, n as int) == lower@,
            i <= needles@.len(),
            forall|j: int| 0 <= j < i ==> !contains(lower@, #[trigger] ns[j]),
        decreases needles@.len() - i,
    {
        let p = chars_of(needles[i]);
        if find_in(lower, 0, n, &p).is_some() {
            proof {
                assert(contains(lower@, ns[i as int]));
            }
            return true;
        }
        i = i + 1;
    }
    false
}

pub open spec fn overview_of(c: ModelCard) -> Overview {
    card_model(c).overview
}

/// Fill `field`, when it is unset and `lower` mentions one of `needles`,
/// with the value after the colon of `v[lo..hi]`.
fn assign_field(
    field: &mut Option<String>,
    v: &Vec<char>,
    lo: usize,
    hi: usize,
    lower: &Vec<char>,
    needles: &[&str],
)
    requires
        lo <= hi <= v@.len(),
    ensures
        opt_view(*final(field)) == assign(
            opt_view(*old(field)),
            v@.subrange(lo as int, hi as int),
            lower@,
            needles@.map_values(|s: &str| s@),
        ),
{
    if field.is_none() && mentions(lower, needles) {
        *field = value_after_colon_in(v, lo, hi);
    }
}

/// Read the overview fields of the body into `card`.
#[verifier::spinoff_prover]
#[verifier::rlimit(40)]
fn parse_overview(body: &str, card: &mut ModelCard)
    ensures
        overview_of(*final(card)) == overview_fold(overview_of(*old(card)), lines(body@)),
        fm_of(*final(card)) == fm_of(*old(card)),
        final(card).model_name == old(card).model_name,
        final(card).sampling_sets == old(card).sampling_sets,
{
    let v = chars_of(body);
    let ls = line_windows(&v);
    let ghost lv = ls@.map_values(|w: (usize, usize)| v@.subrange(w.0 as int, w.1 as int));
    let bullets = vec!['•', '-', '*', '+'];
    let stars = chars_of("**");
    let nothing: Vec<char> = Vec::new();
    proof {
        reveal_strlit("**");
        assert(bullets@ =~= seq!['•', '-', '*', '+']);
        assert(nothing@ =~= ""@) by {
            reveal_strlit("");
        }
    }
    let n_arch: [&str; 2] = ["architecture", "arch:"];
    let n_params: [&str; 3] = ["number of parameters:", "num parameters", "total params"];
    let n_non: [&str; 2] = ["non-embedding", "non_embedding"];
    let n_layers: [&str; 3] = ["number of layers", "num_layers", "num layers"];
    let n_heads: [&str; 3] = ["attention heads", "num_heads", "num heads"];
    let n_ctx: [&str; 3] = ["context length", "context_length", "max position"];
    let n_quant: [&str; 2] = ["quantization:", "quantisation:"];
    proof {
        assert(n_arch@.map_values(|s: &str| s@) =~= needles_architecture());
        assert(n_params@.map_values(|s: &str| s@) =~= needles_parameters());
        assert(n_non@.map_values(|s: &str| s@) =~= needles_non_embedding());
        assert(n_layers@.map_values(|s: &str| s@) =~= needles_layers());
        assert(n_heads@.map_values(|s: &str| s@) =~= needles_heads());
        assert(n_ctx@.map_values(|s: &str| s@) =~= needles_context());
        assert(n_quant@.map_values(|s: &str| s@) =~= needles_quantization());
    }
    let mut i: usize = 0;
    while i < ls.len()
        invariant
            lv == ls@.map_values(|w: (usize, usize)| v@.subrange(w.0 as int, w.1 as int)),
            lv == lines(body@),
            forall|j: int| 0 <= j < ls@.len() ==> (#[trigger] ls@[j]).0 <= ls@[j].1 <= v@.len(),
            i <= ls@.len(),
            bullets@ == seq!['•', '-', '*', '+'],
            stars@ == "**"@,
            stars@.len() == 2,
            nothing@ == ""@,
            n_arch@.map_values(|s: &str| s@) == needles_architecture(),
            n_params@.map_values(|s: &str| s@) == needles_parameters(),
            n_non@.map_values(|s: &str| s@) == needles_non_embedding(),
            n_layers@.map_values(|s: &str| s@) == needles_layers(),
            n_heads@.map_values(|s: &str| s@) == needles_heads(),
            n_ctx@.map_values(|s: &str| s@) == needles_context(),
            n_quant@.map_values(|s: &str| s@) == needles_quantization(),
            overview_of(*card) == overview_fold(overview_of(*old(card)), lv.take(i as int)),
            fm_of(*card) == fm_of(*old(card)),
            card.model_name == old(card).model_name,
            card.sampling_sets == old(card).sampling_sets,
        decreases ls@.len() - i,
    {
        let (lo, hi) = ls[i];
        let ghost line = lv[i as int];
        let ghost before = overview_of(*card);
        proof {
            assert(lv.take(i + 1).drop_last() =~= lv.take(i as int));
            assert(line == v@.subrange(lo as int, hi as int));
        }
        let (a0, a1) = trim_ws(&v, lo, hi);
        let b0 = trim_start_set(&v, a0, a1, &bullets);
        let (c0, c1) = trim_ws(&v, b0, a1);
        let w = replace_all_in(&v, c0, c1, &stars, &nothing);
        let wn = w.len();
        proof {
            assert(w@.subrange(0, wn as int) =~= w@);
        }
        let (d0, d1) = trim_ws(&w, 0, wn);
        let ghost l = w@.subrange(d0 as int, d1 as int);
        proof {
            assert(l == overview_line(line));
        }
        let lowered = to_lowercase(window_string(&w, d0, d1).as_str());
        let lower = chars_of(lowered.as_str());
        assign_field(&mut card.architecture, &w, d0, d1, &lower, &n_arch);
        assign_field(&mut card.parameters, &w, d0, d1, &lower, &n_params);
        assign_field(&mut card.parameters_non_embedding, &w, d0, d1, &lower, &n_non);
        assign_field(&mut card.num_layers, &w, d0, d1, &lower, &n_layers);
        assign_field(&mut card.attention_heads, &w, d0, d1, &lower, &n_heads);
        assign_field(&mut card.context_length, &w, d0, d1, &lower, &n_ctx);
        assign_field(&mut card.quantization, &w, d0, d1, &lower, &n_quant);
        proof {
            assert(overview_of(*card) == overview_step(before, line));
        }
        i = i + 1;
    }
    proof {
        assert(lv.take(ls@.len() as int) =~= lv);
    }
}

// ── Reading sampling parameters ──────────────────────────────────────────────

proof fn lemma_find_bytes(s: Seq<u8>, p: Seq<u8>)
    ensures
        -1 <= find_bytes(s, p) <= s.len(),
        find_bytes(s, p) >= 0 ==> find_bytes(s, p) + p.len() <= s.len() && s.subrange(
            find_bytes(s, p),
            find_bytes(s, p) + p.len(),
        ) == p,
        forall|j: int|
            0 <= j < (if find_bytes(s, p) >= 0 {
                find_bytes(s, p)
            } else {
                s.len() + 1int
            }) ==> !(j + p.len() <= s.len() && #[trigger] s.subrange(j, j + p.len()) == p),
    decreases s.len(),
{
    if p.len() <= s.len() && s.take(p.len() as int) == p {
        assert(s.subrange(0, p.len() as int) =~= s.take(p.len() as int));
    } else if s.len() == 0 {
        assert forall|j: int| 0 <= j < s.len() + 1 implies !(j + p.len() <= s.len()
            && #[trigger] s.subrange(j, j + p.len()) == p) by {
            if j + p.len() <= s.len() {
                assert(p.len() == 0);
                assert(s.take(0) =~= p);
            }
        }
    } else {
        let t = s.drop_first();
        lemma_find_bytes(t, p);
        if find_bytes(t, p) >= 0 {
            assert(s.subrange(find_bytes(t, p) + 1, find_bytes(t, p) + 1 + p.len()) =~= t.subrange(
                find_bytes(t, p),
                find_bytes(t, p) + p.len(),
            ));
        }
        assert forall|j: int|
            0 <= j < (if find_bytes(s, p) >= 0 {
                find_bytes(s, p)
            } else {
                s.len() + 1int
            }) implies !(j + p.len() <= s.len() && #[trigger] s.subrange(j, j + p.len()) == p) by {
            if j == 0 {
                if p.len() <= s.len() {
                    assert(s.subrange(0, p.len() as int) =~= s.take(p.len() as int));
                }
            } else {
                if j + p.len() <= s.len() {
                    assert(s.subrange(j, j + p.len()) =~= t.subrange(j - 1, j - 1 + p.len()));
                }
            }
        }
    }
}

proof fn lemma_find_bytes_at(s: Seq<u8>, p: Seq<u8>, i: int)
    requires
        0 <= i,
        i + p.len() <= s.len(),
        s.subrange(i, i + p.len()) == p,
        forall|j: int| 0 <= j < i ==> !(j + p.len() <= s.len() && #[trigger] s.subrange(j, j + p.len()) == p),
    ensures
        find_bytes(s, p) == i,
{
    lemma_find_bytes(s, p);
    if find_bytes(s, p) < 0 {
        assert(!(i + p.len() <= s.len() && s.subrange(i, i + p.len()) == p));
    } else if find_bytes(s, p) < i {
        assert(!(find_bytes(s, p) + p.len() <= s.len() && s.subrange(find_bytes(s, p), find_bytes(s, p) + p.len()) == p));
    } else if find_bytes(s, p) > i {
        assert(!(i + p.len() <= s.len() && s.subrange(i, i + p.len()) == p));
    }
}

proof fn lemma_find_bytes_none(s: Seq<u8>, p: Seq<u8>)
    requires
        forall|j: int| 0 <= j && j + p.len() <= s.len() ==> #[trigger] s.subrange(j, j + p.len()) != p,
    ensures
        find_bytes(s, p) == -1,
{
    lemma_find_bytes(s, p);
    if find_bytes(s, p) >= 0 {
        assert(s.subrange(find_bytes(s, p), find_bytes(s, p) + p.len()) == p);
    }
}

/// The first position of the bytes `p` in `s`.
fn find_bytes_exec(s: &[u8], p: &[u8]) -> (r: Option<usize>)
    ensures
        match r {
            Some(k) => find_bytes(s@, p@) == k,
            None => find_bytes(s@, p@) == -1,
        },
{
    if p.len() > s.len() {
        proof {
            lemma_find_bytes_none(s@, p@);
        }
        return None;
    }
    let slen = s.len();
    let last = slen - p.len();
    let mut i: usize = 0;
    while i <= last
        invariant
            slen == s@.len(),
            p@.len() <= s@.len(),
            last == s@.len() - p@.len(),
            i <= last + 1,
            forall|j: int| 0 <= j < i ==> !(j + p@.len() <= s@.len() && #[trigger] s@.subrange(j, j + p@.len()) == p@),
        decreases last + 1 - i,
    {
        let mut k: usize = 0;
        let mut same = true;
        while k < p.len()
            invariant
                i <= last,
                slen == s@.len(),
                p@.len() <= s@.len(),
                last as int + p@.len() == s@.len(),
                last == s@.len() - p@.len(),
                k <= p@.len(),
                same == (forall|t: int| 0 <= t < k ==> s@[i + t] == p@[t]),
            decreases p@.len() - k,
        {
            if s[i + k] != p[k] {
                same = false;
            }
            k = k + 1;
        }
        proof {
            if same {
                assert(s@.subrange(i as int, i + p@.len()) =~= p@);
            } else {
                let t = choose|t: int| 0 <= t < p@.len() && s@[i + t] != p@[t];
                assert(s@.subrange(i as int, i + p@.len())[t] != p@[t]);
            }
        }
        if same {
            proof {
                lemma_find_bytes_at(s@, p@, i as int);
            }
            return Some(i);
        }
        if i == last {
            proof {
                lemma_find_bytes_none(s@, p@);
            }
            return None;
        }
        i = i + 1;
    }
    proof {
        lemma_find_bytes_none(s@, p@);
    }
    None
}

/// Whether `v[lo..hi]` spells `word` in any ASCII case.
fn spells_at(v: &Vec<char>, lo: usize, hi: usize, word: &Vec<char>) -> (b: bool)
    requires
        lo <= hi <= v@.len(),
    ensures
        b == spells(v@.subrange(lo as int, hi as int), word@),
{
    if hi - lo != word.len() {
        return false;
    }
    let ghost w = v@.subrange(lo as int, hi as int);
    let mut i: usize = 0;
    while i < word.len()
        invariant
            hi - lo == word@.len(),
            lo <= hi <= v@.len(),
            w == v@.subrange(lo as int, hi as int),
            i <= word@.len(),
            forall|k: int| 0 <= k < i ==> same_letter(#[trigger] w[k], word@[k]),
        decreases word@.len() - i,
    {
        let c = v[lo + i];
        let t = word[i];
        proof {
            assert(w[i as int] == c);
        }
        if !(c == t || (c as u32) as u64 + 32 == (t as u32) as u64) {
            return false;
        }
        i = i + 1;
    }
    true
}

/// The numeric or boolean value after `key` in `line`; `None` when the position after the
/// key (found in the lowercased line) is not a character boundary of
/// `line`, where the value cannot be read.
fn extract_numeric_value(line: &str, key: &str) -> (r: Option<Option<String>>)
    ensures
        r is Some == numeric_ok(line@, key@),
        r matches Some(x) ==> opt_view(x) == spec_extract_numeric_value(line@, key@),
{
    let lower = to_lowercase(line);
    let key_lower = to_lowercase(key);
    let lb = lower.as_str().as_bytes();
    let kb = key_lower.as_str().as_bytes();
    let pos = match find_bytes_exec(lb, kb) {
        Some(p) => p,
        None => return Some(None),
    };
    let klen = key.as_bytes().len();
    let total = line.as_bytes().len();
    proof {
        encode_utf8_valid_utf8(line@);
    }
    if pos > total || klen > total - pos {
        proof {
            assert(!is_char_boundary(encode_utf8(line@), pos + klen));
        }
        return None;
    }
    let cut = pos + klen;
    if !line.is_char_boundary(cut) {
        return None;
    }
    let (_head, after) = line.split_at(cut);
    proof {
        encode_utf8_decode_utf8(after@);
        assert(after@ == decode_utf8(encode_utf8(line@).skip(cut as int))) by {
            assert(encode_utf8(line@).subrange(cut as int, encode_utf8(line@).len() as int) =~= encode_utf8(
                line@,
            ).skip(cut as int));
        }
    }
    let av = chars_of(after);
    let n = av.len();
    let seps = vec!['=', ':', ' ', '\t'];
    proof {
        assert(seps@ =~= seq!['=', ':', ' ', '\t']);
        assert(av@.subrange(0, n as int) =~= av@);
    }
    let a = trim_start_set(&av, 0, n, &seps);
    let mut b = a;
    while b < n && (('0' <= av[b] && av[b] <= '9') || av[b] == '.' || av[b] == '-')
        invariant
            a <= b <= n == av@.len(),
            number_len(av@.subrange(a as int, n as int)) == (b - a) + number_len(
                av@.subrange(b as int, n as int),
            ),
        decreases n - b,
    {
        proof {
            assert(av@.subrange(b as int, n as int).drop_first() =~= av@.subrange(b + 1, n as int));
        }
        b = b + 1;
    }
    proof {
        assert(av@.subrange(a as int, n as int).take(b - a) =~= av@.subrange(a as int, b as int));
    }
    if b > a {
        return Some(Some(window_string(&av, a, b)));
    }
    let mut c = a;
    while c < n && (('a' <= av[c] && av[c] <= 'z') || ('A' <= av[c] && av[c] <= 'Z'))
        invariant
            a <= c <= n == av@.len(),
            letter_len(av@.subrange(a as int, n as int)) == (c - a) + letter_len(
                av@.subrange(c as int, n as int),
            ),
        decreases n - c,
    {
        proof {
            assert(av@.subrange(c as int, n as int).drop_first() =~= av@.subrange(c + 1, n as int));
        }
        c = c + 1;
    }
    proof {
        assert(av@.subrange(a as int, n as int).take(c - a) =~= av@.subrange(a as int, c as int));
    }
    let t = vec!['t', 'r', 'u', 'e'];
    let f = vec!['f', 'a', 'l', 's', 'e'];
    proof {
        assert(t@ =~= seq!['t', 'r', 'u', 'e']);
        assert(f@ =~= seq!['f', 'a', 'l', 's', 'e']);
    }
    if spells_at(&av, a, c, &t) || spells_at(&av, a, c, &f) {
        Some(Some(window_string(&av, a, c)))
    } else {
        Some(None)
    }
}

/// Give parameter `p` the value `v` unless it already has one.
fn set_param_if_unset(set: &mut SamplingSet, p: Param, v: String)
    ensures
        sampling_model(*final(set)) == set_if_unset(sampling_model(*old(set)), p, v@),
{
    match p {
        Param::Temperature => if set.temperature.is_none() {
            set.temperature = Some(v);
        },
        Param::TopP => if set.top_p.is_none() {
            set.top_p = Some(v);
        },
        Param::TopK => if set.top_k.is_none() {
            set.top_k = Some(v);
        },
        Param::MinP => if set.min_p.is_none() {
            set.min_p = Some(v);
        },
        Param::PresencePenalty => if set.presence_penalty.is_none() {
            set.presence_penalty = Some(v);
        },
        Param::RepetitionPenalty => if set.repetition_penalty.is_none() {
            set.repetition_penalty = Some(v);
        },
        Param::MaxTokens => if set.max_tokens.is_none() {
            set.max_tokens = Some(v);
        },
    }
}

/// Read the parameters named in `line` into `set`; `false` (with `set` in
/// an unspecified state) when a value cannot be read because its position
/// falls inside a character.
fn extract_params_from_line(line: &str, set: &mut SamplingSet) -> (ok: bool)
    ensures
        ok == spec_extract_params_from_line(line@, sampling_model(*old(set))) is Some,
        ok ==> spec_extract_params_from_line(line@, sampling_model(*old(set))) == Some(
            sampling_model(*final(set)),
        ),
{
    let table: [(&str, Param); 19] = [
        ("temperature", Param::Temperature),
        ("temp", Param::Temperature),
        ("top_p", Param::TopP),
        ("topp", Param::TopP),
        ("top-p", Param::TopP),
        ("top_k", Param::TopK),
        ("topk", Param::TopK),
        ("top-k", Param::TopK),
        ("min_p", Param::MinP),
        ("minp", Param::MinP),
        ("min-p", Param::MinP),
        ("presence_penalty", Param::PresencePenalty),
        ("presencepenalty", Param::PresencePenalty),
        ("presence-penalty", Param::PresencePenalty),
        ("repetition_penalty", Param::RepetitionPenalty),
        ("repetitionpenalty", Param::RepetitionPenalty),
        ("max_tokens", Param::MaxTokens),
        ("max_new_tokens", Param::MaxTokens),
        ("n_ctx", Param::MaxTokens),
    ];
    proof {
        assert(table@.map_values(|e: (&str, Param)| (e.0@, e.1)) =~= assignments());
    }
    let ghost start = sampling_model(*set);
    let lowered = to_lowercase(line);
    let lower = chars_of(lowered.as_str());
    let n = lower.len();
    proof {
        assert(lower@.subrange(0, n as int) =~= lower@);
    }
    let mut k: usize = 0;
    while k < 19
        invariant
            table@.map_values(|e: (&str, Param)| (e.0@, e.1)) == assignments(),
            lower@ == lowercase(line@),
            n == lower@.len(),
            lower@.subrange(0, n as int) == lower@,
            k <= 19,
            start == sampling_model(*old(set)),
            params_fold(line@, start, k as nat) == Some(sampling_model(*set)),
        decreases 19 - k,
    {
        let (needle, p) = table[k];
        proof {
            assert(assignments()[k as int] == (needle@, p));
        }
        let pat = chars_of(needle);
        if find_in(&lower, 0, n, &pat).is_some() {
            match extract_numeric_value(line, needle) {
                Some(Some(v)) => set_param_if_unset(set, p, v),
                Some(None) => {},
                None => {
                    proof {
                        assert(params_fold(line@, start, (k + 1) as nat) is None);
                        assert forall|m: nat| m >= k + 1 implies #[trigger] params_fold(line@, start, m) is None by {
                            lemma_params_fold_none(line@, start, (k + 1) as nat, m);
                        }
                        assert(params_fold(line@, start, 19) is None);
                        assert(start == sampling_model(*old(set)));
                        assert(spec_extract_params_from_line(line@, sampling_model(*old(set))) is None);
                    }
                    return false;
                },
            }
        }
        k = k + 1;
    }
    true
}

proof fn lemma_params_fold_none(line: Text, s: SamplingModel, a: nat, b: nat)
    requires
        a <= b,
        params_fold(line, s, a) is None,
    ensures
        params_fold(line, s, b) is None,
    decreases b - a,
{
    if a < b {
        lemma_params_fold_none(line, s, a, (b - 1) as nat);
    }
}

/// Whether `v[lo..hi]` is `word`.
fn window_is(v: &Vec<char>, lo: usize, hi: usize, word: &str) -> (b: bool)
    requires
        lo <= hi <= v@.len(),
    ensures
        b == (v@.subrange(lo as int, hi as int) == word@),
{
    let s = window_string(v, lo, hi);
    crate::text::str_eq(s.as_str(), word)
}

/// Read llama.cpp-style flags in `line` (`--temp 0.6 --top-k 20 …`) into
/// `set`; a later flag overrides an earlier one.
fn extract_cli_flags(line: &str, set: &mut SamplingSet)
    ensures
        sampling_model(*final(set)) == spec_extract_cli_flags(line@, sampling_model(*old(set))),
{
    let v = chars_of(line);
    let n = v.len();
    proof {
        assert(v@.subrange(0, n as int) =~= v@);
    }
    let ws = word_windows(&v, 0, n);
    let ghost wv = ws@.map_values(|w: (usize, usize)| v@.subrange(w.0 as int, w.1 as int));
    let trail = vec![',', ';', '\'', '"'];
    proof {
        assert(trail@ =~= seq![',', ';', '\'', '"']);
    }
    let mut j: usize = 0;
    while j < ws.len() && j + 1 < ws.len()
        invariant
            wv == ws@.map_values(|w: (usize, usize)| v@.subrange(w.0 as int, w.1 as int)),
            wv == words(line@),
            forall|i: int| 0 <= i < ws@.len() ==> (#[trigger] ws@[i]).0 <= ws@[i].1 <= v@.len(),
            trail@ == seq![',', ';', '\'', '"'],
            j <= ws@.len(),
            spec_extract_cli_flags(line@, sampling_model(*old(set))) == cli_from(
                wv,
                j as nat,
                sampling_model(*set),
            ),
        decreases ws@.len() - j,
    {
        {
            let (t0, t1) = ws[j];
            let (u0, u1) = ws[j + 1];
            let e = trim_end_set(&v, u0, u1, &trail);
            let val = window_string(&v, u0, e);
            let ghost before = sampling_model(*set);
            proof {
                assert(wv[j as int] == v@.subrange(t0 as int, t1 as int));
                assert(flag_value(wv[j + 1]) == val@);
            }
            if window_is(&v, t0, t1, "--temp") || window_is(&v, t0, t1, "--temperature") {
                set.temperature = Some(val);
            } else if window_is(&v, t0, t1, "--top-p") {
                set.top_p = Some(val);
            } else if window_is(&v, t0, t1, "--top-k") {
                set.top_k = Some(val);
            } else if window_is(&v, t0, t1, "--min-p") {
                set.min_p = Some(val);
            } else if window_is(&v, t0, t1, "--presence-penalty") {
                set.presence_penalty = Some(val);
            } else if window_is(&v, t0, t1, "--repeat-penalty") || window_is(
                &v,
                t0,
                t1,
                "--repetition-penalty",
            ) {
                set.repetition_penalty = Some(val);
            } else if window_is(&v, t0, t1, "-n") || window_is(&v, t0, t1, "--n-predict") {
                set.max_tokens = Some(val);
            }
            proof {
                assert(sampling_model(*set) == cli_step(before, wv[j as int], flag_value(wv[j + 1])));
            }
            j = j + 1;
        }
    }
}

/// A line as a sampling-set label (see [`spec_clean_label`]); `None` when
/// the label must be cut at a byte that falls inside a character.
fn clean_label(line: &str) -> (r: Option<String>)
    ensures
        r is Some == label_ok(line@),
        r matches Some(l) ==> l@ == spec_clean_label(line@),
{
    let v = chars_of(line);
    let n = v.len();
    proof {
        assert(v@.subrange(0, n as int) =~= v@);
    }
    let lead = vec!['#', '-', '*', '>', ' '];
    let marks = vec!['*', '_', '`'];
    proof {
        assert(lead@ =~= seq!['#', '-', '*', '>', ' ']);
        assert(marks@ =~= seq!['*', '_', '`']);
    }
    let (a, b) = trim_ws(&v, 0, n);
    let c = trim_start_set(&v, a, b, &lead);
    let w = remove_set_in(&v, c, b, &marks);
    let wn = w.len();
    proof {
        assert(w@.subrange(0, wn as int) =~= w@);
    }
    let (d0, d1) = trim_ws(&w, 0, wn);
    let l = window_string(&w, d0, d1);
    proof {
        assert(l@ == label_text(line@));
        encode_utf8_valid_utf8(l@);
    }
    let ls = l.as_str();
    let blen = ls.as_bytes().len();
    proof {
        assert(ls@ == l@);
        assert(blen == encode_utf8(l@).len());
    }
    if blen > 80 {
        let boundary = ls.is_char_boundary(79);
        proof {
            assert(boundary == is_char_boundary(encode_utf8(l@), 79));
        }
        if !boundary {
            return None;
        }
        let (head, _tail) = ls.split_at(79);
        proof {
            encode_utf8_decode_utf8(head@);
            assert(encode_utf8(l@).take(79) =~= encode_utf8(l@).subrange(0, 79));
        }
        let mut out = to_string(head);
        push_str(&mut out, "…");
        Some(out)
    } else {
        Some(l)
    }
}

/// The label of the flag line at `i` among the lines `ls` of `v`: that of
/// the nearest of the five lines before it that is not blank and opens no
/// code fence, or `llama.cpp invocation`; `None` when that label cannot be
/// cut.
fn find_preceding_label(v: &Vec<char>, ls: &Vec<(usize, usize)>, i: usize) -> (r: Option<String>)
    requires
        i < ls@.len(),
        forall|j: int| 0 <= j < ls@.len() ==> (#[trigger] ls@[j]).0 <= ls@[j].1 <= v@.len(),
    ensures
        ({
            let lv = ls@.map_values(|w: (usize, usize)| v@.subrange(w.0 as int, w.1 as int));
            &&& r is Some == preceding_label_ok(lv, i as int)
            &&& r matches Some(l) ==> l@ == spec_find_preceding_label(lv, i as int)
        }),
{
    let ghost lv = ls@.map_values(|w: (usize, usize)| v@.subrange(w.0 as int, w.1 as int));
    let fence = chars_of("```");
    let mut steps: usize = 5;
    let mut j: usize = i;
    while steps > 0 && j > 0
        invariant
            i < ls@.len(),
            forall|k: int| 0 <= k < ls@.len() ==> (#[trigger] ls@[k]).0 <= ls@[k].1 <= v@.len(),
            lv == ls@.map_values(|w: (usize, usize)| v@.subrange(w.0 as int, w.1 as int)),
            fence@ == "```"@,
            j <= i,
            steps <= 5,
            label_line_from(lv, i - 1, 5) == label_line_from(lv, j - 1, steps as nat),
        decreases steps,
    {
        let (lo, hi) = ls[j - 1];
        let (t0, t1) = trim_ws(v, lo, hi);
        proof {
            assert(lv[j - 1] == v@.subrange(lo as int, hi as int));
        }
        if t1 > t0 && !starts_with_at(v, t0, t1, &fence) {
            let t = window_string(v, t0, t1);
            return clean_label(t.as_str());
        }
        steps = steps - 1;
        j = j - 1;
    }
    proof {
        assert(label_line_from(lv, j - 1, steps as nat) is None);
    }
    Some(to_string("llama.cpp invocation"))
}

impl SamplingSet {
    /// Whether the set holds at least one of the six sampling parameters.
    pub fn has_any(&self) -> (b: bool)
        ensures
            b == spec_has_any(sampling_model(*self)),
    {
        self.temperature.is_some() || self.top_p.is_some() || self.top_k.is_some()
            || self.min_p.is_some() || self.presence_penalty.is_some()
            || self.repetition_penalty.is_some()
    }
}

// ── Putting it together ──────────────────────────────────────────────────────

pub open spec fn set_models(s: Seq<SamplingSet>) -> Seq<SamplingModel> {
    s.map_values(|x: SamplingSet| sampling_model(x))
}

proof fn lemma_dedup_nonempty(s: Seq<SamplingModel>)
    ensures
        s.len() > 0 ==> dedup(s).len() > 0,
    decreases s.len(),
{
    if s.len() > 1 {
        lemma_dedup_nonempty(s.drop_last());
    }
}

proof fn lemma_sets_upto_none(ls: Seq<Text>, a: int, b: int)
    requires
        0 <= a <= b,
        sets_upto(ls, a) is None,
    ensures
        sets_upto(ls, b) is None,
    decreases b - a,
{
    if a < b {
        lemma_sets_upto_none(ls, a, b - 1);
    }
}

proof fn lemma_window_fold_none(ls: Seq<Text>, lo: int, a: int, b: int, s: SamplingModel)
    requires
        lo <= a <= b,
        window_fold(ls, lo, a, s) is None,
    ensures
        window_fold(ls, lo, b, s) is None,
    decreases b - a,
{
    if a < b {
        lemma_window_fold_none(ls, lo, a, b - 1, s);
    }
}

fn same_text(a: &Option<String>, b: &Option<String>) -> (r: bool)
    ensures
        r == (opt_view(*a) == opt_view(*b)),
{
    match (a, b) {
        (Some(x), Some(y)) => crate::text::str_eq(x.as_str(), y.as_str()),
        (None, None) => true,
        _ => false,
    }
}

/// Append `s` unless it repeats the last set.
fn push_dedup(sets: &mut Vec<SamplingSet>, s: SamplingSet, raw: Ghost<Seq<SamplingModel>>)
    requires
        set_models(old(sets)@) == dedup(raw@),
    ensures
        set_models(final(sets)@) == dedup(raw@.push(sampling_model(s))),
{
    let ghost r2 = raw@.push(sampling_model(s));
    proof {
        assert(r2.drop_last() =~= raw@);
        lemma_dedup_nonempty(raw@);
    }
    let n = sets.len();
    if n > 0 {
        let last = &sets[n - 1];
        if crate::text::str_eq(last.label.as_str(), s.label.as_str()) && same_text(
            &last.temperature,
            &s.temperature,
        ) {
            proof {
                assert(set_models(sets@).last() == sampling_model(sets@[n - 1]));
                assert(same_set(dedup(raw@).last(), sampling_model(s)));
            }
            return;
        }
        proof {
            assert(set_models(sets@).last() == sampling_model(sets@[n - 1]));
        }
    }
    let ghost before = sets@;
    sets.push(s);
    proof {
        assert(set_models(sets@) =~= set_models(before).push(sampling_model(s)));
        if n == 0 {
            assert(raw@.len() == 0);
            assert(r2 =~= seq![sampling_model(s)]);
        }
    }
}

fn new_set(label: String) -> (s: SamplingSet)
    ensures
        sampling_model(s) == empty_set(label@),
{
    let s = SamplingSet {
        label,
        temperature: None,
        top_p: None,
        top_k: None,
        min_p: None,
        presence_penalty: None,
        repetition_penalty: None,
        max_tokens: None,
        extra: Vec::new(),
    };
    proof {
        assert(sampling_model(s).extra =~= Seq::<(Text, Text)>::empty());
    }
    s
}

/// Whether the lowercase form of `line` contains one of `needles`.
fn lower_mentions(line: &str, needles: &[&str]) -> (b: bool)
    ensures
        b == any_contains(lowercase(line@), needles@.map_values(|s: &str| s@)),
{
    let lowered = to_lowercase(line);
    let lower = chars_of(lowered.as_str());
    mentions(&lower, needles)
}

/// The set opened at line `i` as a context line: `Some(None)` when the
/// line is no context line or the set has no parameter, `None` when its
/// label or a value cannot be cut.
fn context_set_at(v: &Vec<char>, ls: &Vec<(usize, usize)>, i: usize) -> (r: Option<Option<SamplingSet>>)
    requires
        i < ls@.len(),
        forall|j: int| 0 <= j < ls@.len() ==> (#[trigger] ls@[j]).0 <= ls@[j].1 <= v@.len(),
    ensures
        ({
            let lv = ls@.map_values(|w: (usize, usize)| v@.subrange(w.0 as int, w.1 as int));
            match context_set(lv, i as int) {
                Some(x) => r matches Some(o) && x == match o {
                    Some(s) => seq![sampling_model(s)],
                    None => Seq::<SamplingModel>::empty(),
                },
                None => r is None,
            }
        }),
{
    let ghost lv = ls@.map_values(|w: (usize, usize)| v@.subrange(w.0 as int, w.1 as int));
    let n = ls.len();
    let (lo, hi) = ls[i];
    let line = window_string(v, lo, hi);
    proof {
        assert(lv[i as int] == line@);
    }
    let ctx_words: [&str; 4] = ["thinking mode", "non-thinking", "sampling param", "best practice"];
    proof {
        assert(ctx_words@.map_values(|s: &str| s@) =~= seq![
            "thinking mode"@,
            "non-thinking"@,
            "sampling param"@,
            "best practice"@,
        ]);
    }
    let is_ctx = lower_mentions(line.as_str(), &ctx_words);
    proof {
        let lower = lowercase(line@);
        let ns = ctx_words@.map_values(|s: &str| s@);
        if is_ctx {
            let k = choose|k: int| 0 <= k < ns.len() && contains(lower, #[trigger] ns[k]);
            assert(is_context_line(line@));
        } else {
            assert(!contains(lower, ns[0]));
            assert(!contains(lower, ns[1]));
            assert(!contains(lower, ns[2]));
            assert(!contains(lower, ns[3]));
            assert(!is_context_line(line@));
        }
    }
    if !is_ctx {
        return Some(None);
    }
    let label = match clean_label(line.as_str()) {
        Some(l) => l,
        None => return None,
    };
    let mut set = new_set(label);
    let ghost s0 = sampling_model(set);
    let end = if n - i > 15 {
        i + 15
    } else {
        n
    };
    let mut j = i;
    while j < end
        invariant
            n == ls@.len(),
            lv == ls@.map_values(|w: (usize, usize)| v@.subrange(w.0 as int, w.1 as int)),
            forall|t: int| 0 <= t < ls@.len() ==> (#[trigger] ls@[t]).0 <= ls@[t].1 <= v@.len(),
            i <= j <= end <= n,
            i < n,
            end == (if i + 15 < n {
                i + 15
            } else {
                n as int
            }),
            is_context_line(lv[i as int]),
            label_ok(lv[i as int]),
            s0 == empty_set(spec_clean_label(lv[i as int])),
            window_fold(lv, i as int, j as int, s0) == Some(sampling_model(set)),
        decreases end - j,
    {
        let (a, b) = ls[j];
        let lj = window_string(v, a, b);
        proof {
            assert(lv[j as int] == lj@);
        }
        if !extract_params_from_line(lj.as_str(), &mut set) {
            proof {
                assert(window_fold(lv, i as int, j + 1, s0) is None);
                lemma_window_fold_none(lv, i as int, j + 1, end as int, s0);
                assert(context_set(lv, i as int) is None);
            }
            return None;
        }
        j = j + 1;
    }
    if set.has_any() {
        Some(Some(set))
    } else {
        Some(None)
    }
}

/// The set given at line `i` as a line of llama.cpp flags: `Some(None)`
/// when the line holds no temperature flag or the set has no parameter,
/// `None` when its label cannot be cut.
fn flag_set_at(v: &Vec<char>, ls: &Vec<(usize, usize)>, i: usize) -> (r: Option<Option<SamplingSet>>)
    requires
        i < ls@.len(),
        forall|j: int| 0 <= j < ls@.len() ==> (#[trigger] ls@[j]).0 <= ls@[j].1 <= v@.len(),
    ensures
        ({
            let lv = ls@.map_values(|w: (usize, usize)| v@.subrange(w.0 as int, w.1 as int));
            match flag_set(lv, i as int) {
                Some(x) => r matches Some(o) && x == match o {
                    Some(s) => seq![sampling_model(s)],
                    None => Seq::<SamplingModel>::empty(),
                },
                None => r is None,
            }
        }),
{
    let ghost lv = ls@.map_values(|w: (usize, usize)| v@.subrange(w.0 as int, w.1 as int));
    let (lo, hi) = ls[i];
    proof {
        assert(lv[i as int] == v@.subrange(lo as int, hi as int));
    }
    let t1 = chars_of("--temp");
    let t2 = chars_of("--temperature");
    let is_flag = find_in(v, lo, hi, &t1).is_some() || find_in(v, lo, hi, &t2).is_some();
    if !is_flag {
        return Some(None);
    }
    let label = match find_preceding_label(v, ls, i) {
        Some(l) => l,
        None => return None,
    };
    let line = window_string(v, lo, hi);
    let mut set = new_set(label);
    extract_cli_flags(line.as_str(), &mut set);
    if set.has_any() {
        Some(Some(set))
    } else {
        Some(None)
    }
}

/// The model of the set in `o`, as a sequence of at most one.
pub open spec fn found(o: Option<SamplingSet>) -> Seq<SamplingModel> {
    match o {
        Some(s) => seq![sampling_model(s)],
        None => Seq::empty(),
    }
}

/// Append the set of `o`, if any, unless it repeats the last set.
fn push_found(sets: &mut Vec<SamplingSet>, o: Option<SamplingSet>, raw: Ghost<Seq<SamplingModel>>)
    requires
        set_models(old(sets)@) == dedup(raw@),
    ensures
        set_models(final(sets)@) == dedup(raw@ + found(o)),
{
    match o {
        Some(s) => {
            proof {
                assert(raw@ + seq![sampling_model(s)] =~= raw@.push(sampling_model(s)));
            }
            push_dedup(sets, s, raw);
        },
        None => {
            proof {
                assert(raw@ + Seq::<SamplingModel>::empty() =~= raw@);
            }
        },
    }
}

/// The recommended sampling sets of a body, in order, with runs of sets of
/// equal label and temperature reduced to their first; `None` where a label
/// or a value would be cut inside a character.
fn parse_sampling(body: &str) -> (r: Option<Vec<SamplingSet>>)
    ensures
        match spec_parse_sampling(body@) {
            Some(ss) => r matches Some(v) && set_models(v@) == ss,
            None => r is None,
        },
{
    let v = chars_of(body);
    let ls = line_windows(&v);
    let ghost lv = ls@.map_values(|w: (usize, usize)| v@.subrange(w.0 as int, w.1 as int));
    let n = ls.len();
    let ghost mut raw: Seq<SamplingModel> = Seq::empty();
    let mut sets: Vec<SamplingSet> = Vec::new();
    proof {
        assert(set_models(sets@) =~= Seq::<SamplingModel>::empty());
    }
    let mut i: usize = 0;
    while i < n
        invariant
            n == ls@.len(),
            lv == ls@.map_values(|w: (usize, usize)| v@.subrange(w.0 as int, w.1 as int)),
            lv == lines(body@),
            forall|j: int| 0 <= j < ls@.len() ==> (#[trigger] ls@[j]).0 <= ls@[j].1 <= v@.len(),
            i <= n,
            sets_upto(lv, i as int) == Some(raw),
            set_models(sets@) == dedup(raw),
        decreases n - i,
    {
        let c = match context_set_at(&v, &ls, i) {
            Some(c) => c,
            None => {
                proof {
                    lemma_sets_upto_none(lv, i + 1, n as int);
                }
                return None;
            },
        };
        let f = match flag_set_at(&v, &ls, i) {
            Some(f) => f,
            None => {
                proof {
                    lemma_sets_upto_none(lv, i + 1, n as int);
                }
                return None;
            },
        };
        let ghost cs = found(c);
        let ghost fs = found(f);
        let ghost raw0 = raw;
        push_found(&mut sets, c, Ghost(raw0));
        push_found(&mut sets, f, Ghost(raw0 + cs));
        proof {
            raw = raw0 + cs + fs;
            assert(sets_upto(lv, i + 1) == Some(raw));
        }
        i = i + 1;
    }
    Some(sets)
}

impl ModelCard {
    /// Read a model card; `None` where the card cannot be read because a
    /// label or value would be cut inside a character (see
    /// [`spec_parse`]).
    pub fn try_parse(text: &str) -> (r: Option<ModelCard>)
        ensures
            match spec_parse(text@) {
                Some(m) => r matches Some(c) && card_model(c) == m,
                None => r is None,
            },
    {
        let mut card = ModelCard {
            license: None,
            pipeline_tag: None,
            tags: Vec::new(),
            base_model: None,
            model_name: None,
            architecture: None,
            parameters: None,
            parameters_non_embedding: None,
            num_layers: None,
            attention_heads: None,
            context_length: None,
            quantization: None,
            sampling_sets: Vec::new(),
        };
        proof {
            assert(fm_of(card).tags =~= Seq::<Text>::empty());
        }
        match extract_frontmatter(text) {
            Some(fm) => parse_frontmatter(fm.as_str(), &mut card),
            None => {},
        }
        let body = strip_frontmatter(text);
        if card.model_name.is_none() {
            card.model_name = extract_heading(body.as_str());
        }
        parse_overview(body.as_str(), &mut card);
        match parse_sampling(body.as_str()) {
            Some(ss) => {
                card.sampling_sets = ss;
                proof {
                    assert(card_model(card) == spec_parse(text@)->0);
                }
                Some(card)
            },
            None => None,
        }
    }

    /// Read a model card whose labels and values can all be cut (always so
    /// for ASCII text).
    pub fn parse(text: &str) -> (c: ModelCard)
        requires
            spec_parse(text@) is Some,
        ensures
            card_model(c) == spec_parse(text@)->0,
    {
        match ModelCard::try_parse(text) {
            Some(c) => c,
            None => {
                proof {
                    assert(false);
                }
                ModelCard {
                    license: None,
                    pipeline_tag: None,
                    tags: Vec::new(),
                    base_model: None,
                    model_name: None,
                    architecture: None,
                    parameters: None,
                    parameters_non_embedding: None,
                    num_layers: None,
                    attention_heads: None,
                    context_length: None,
                    quantization: None,
                    sampling_sets: Vec::new(),
                }
            },
        }
    }
}

// ── Laws ─────────────────────────────────────────────────────────────────────

proof fn lemma_dedup(s: Seq<SamplingModel>)
    ensures
        forall|i: int| 0 <= i < dedup(s).len() ==> s.contains(#[trigger] dedup(s)[i]),
        forall|i: int| 0 <= i < dedup(s).len() - 1 ==> !same_set(#[trigger] dedup(s)[i], dedup(s)[i + 1]),
        s.len() > 0 ==> dedup(s).len() > 0,
    decreases s.len(),
{
    if s.len() > 1 {
        let t = s.drop_last();
        lemma_dedup(t);
        let d = dedup(t);
        assert forall|i: int| 0 <= i < d.len() implies s.contains(#[trigger] d[i]) by {
            assert(t.contains(d[i]));
            let j = choose|j: int| 0 <= j < t.len() && t[j] == d[i];
            assert(s[j] == d[i]);
        }
        if !same_set(d.last(), s.last()) {
            let r = d.push(s.last());
            assert forall|i: int| 0 <= i < r.len() implies s.contains(#[trigger] r[i]) by {
                if i < d.len() {
                    assert(r[i] == d[i]);
                } else {
                    assert(r[i] == s[s.len() - 1]);
                }
            }
            assert forall|i: int| 0 <= i < r.len() - 1 implies !same_set(#[trigger] r[i], r[i + 1]) by {
                if i < d.len() - 1 {
                    assert(r[i] == d[i] && r[i + 1] == d[i + 1]);
                }
            }
        }
    } else if s.len() == 1 {
        assert(s.contains(s[0]));
    }
}

proof fn lemma_sets_upto_have_params(ls: Seq<Text>, i: int)
    requires
        0 <= i <= ls.len(),
    ensures
        sets_upto(ls, i) matches Some(ss) ==> forall|k: int| 0 <= k < ss.len() ==> spec_has_any(#[trigger] ss[k]),
    decreases i,
{
    if i > 0 {
        lemma_sets_upto_have_params(ls, i - 1);
        if let Some(ss) = sets_upto(ls, i) {
            let a = sets_upto(ls, i - 1)->0;
            let b = context_set(ls, i - 1)->0;
            let c = flag_set(ls, i - 1)->0;
            assert(ss == a + b + c);
            assert forall|k: int| 0 <= k < ss.len() implies spec_has_any(#[trigger] ss[k]) by {
                if k < a.len() {
                    assert(ss[k] == a[k]);
                } else if k < a.len() + b.len() {
                    assert(ss[k] == b[k - a.len()]);
                } else {
                    assert(ss[k] == c[k - a.len() - b.len()]);
                }
            }
        }
    }
}

/// Law: every sampling set read from a body holds at least one sampling
/// parameter, and no set repeats the label and temperature of the set just
/// before it.
pub proof fn law_sampling_sets(body: Text)
    ensures
        spec_parse_sampling(body) matches Some(ss) ==> {
            &&& forall|k: int| 0 <= k < ss.len() ==> spec_has_any(#[trigger] ss[k])
            &&& forall|k: int| 0 <= k < ss.len() - 1 ==> !same_set(#[trigger] ss[k], ss[k + 1])
        },
{
    let ls = lines(body);
    lemma_sets_upto_have_params(ls, ls.len() as int);
    if let Some(raw) = sets_upto(ls, ls.len() as int) {
        lemma_dedup(raw);
        let ss = dedup(raw);
        assert forall|k: int| 0 <= k < ss.len() implies spec_has_any(#[trigger] ss[k]) by {
            assert(raw.contains(ss[k]));
            let j = choose|j: int| 0 <= j < raw.len() && raw[j] == ss[k];
            assert(spec_has_any(raw[j]));
        }
    }
}

// ── Rows for display ─────────────────────────────────────────────────────────

/// A row for a field that has a value.
pub open spec fn opt_row(label: Text, o: Option<Text>) -> Seq<(Text, Text)> {
    match o {
        Some(v) => seq![(label, v)],
        None => Seq::empty(),
    }
}

/// The tags, separated by `", "`.
pub open spec fn join_tags(tags: Seq<Text>) -> Text
    decreases tags.len(),
{
    if tags.len() == 0 {
        Seq::empty()
    } else if tags.len() == 1 {
        tags[0]
    } else {
        join_tags(tags.drop_last()) + ", "@ + tags.last()
    }
}

/// The overview table of a card: each field that has a value, in a fixed
/// order, then the tags when there are any.
pub open spec fn spec_card_rows(c: CardModel) -> Seq<(Text, Text)> {
    opt_row("Model name"@, c.model_name) + opt_row("Architecture"@, c.overview.architecture)
        + opt_row("Parameters"@, c.overview.parameters) + opt_row(
        "Parameters (non-embed)"@,
        c.overview.parameters_non_embedding,
    ) + opt_row("Layers"@, c.overview.num_layers) + opt_row(
        "Attention heads"@,
        c.overview.attention_heads,
    ) + opt_row("Context length"@, c.overview.context_length) + opt_row(
        "Quantization"@,
        c.overview.quantization,
    ) + opt_row("License"@, c.license) + opt_row("Pipeline"@, c.pipeline_tag) + opt_row(
        "Base model"@,
        c.base_model,
    ) + if c.tags.len() > 0 {
        seq![("Tags"@, join_tags(c.tags))]
    } else {
        Seq::empty()
    }
}

/// The parameter table of a sampling set: each parameter that has a value,
/// in a fixed order, then the extra pairs.
pub open spec fn spec_param_rows(s: SamplingModel) -> Seq<(Text, Text)> {
    opt_row("Temperature"@, s.temperature) + opt_row("Top-P"@, s.top_p) + opt_row(
        "Top-K"@,
        s.top_k,
    ) + opt_row("Min-P"@, s.min_p) + opt_row("Presence Penalty"@, s.presence_penalty) + opt_row(
        "Repetition Penalty"@,
        s.repetition_penalty,
    ) + opt_row("Max Tokens"@, s.max_tokens) + s.extra
}

pub open spec fn rows_view(r: Seq<(String, String)>) -> Seq<(Text, Text)> {
    r.map_values(|x: (String, String)| (x.0@, x.1@))
}

fn push_opt_row(rows: &mut Vec<(String, String)>, label: &str, o: &Option<String>)
    ensures
        rows_view(final(rows)@) == rows_view(old(rows)@) + opt_row(label@, opt_view(*o)),
{
    let ghost before = rows@;
    match o {
        Some(v) => {
            rows.push((to_string(label), to_string(v.as_str())));
            proof {
                assert(rows_view(rows@) =~= rows_view(before) + opt_row(label@, opt_view(*o)));
            }
        },
        None => {
            proof {
                assert(rows_view(rows@) =~= rows_view(before) + opt_row(label@, opt_view(*o)));
            }
        },
    }
}

/// The overview table of a card.
pub fn card_rows(card: &ModelCard) -> (r: Vec<(String, String)>)
    ensures
        rows_view(r@) == spec_card_rows(card_model(*card)),
{
    let mut rows: Vec<(String, String)> = Vec::new();
    proof {
        assert(rows_view(rows@) =~= Seq::<(Text, Text)>::empty());
    }
    push_opt_row(&mut rows, "Model name", &card.model_name);
    push_opt_row(&mut rows, "Architecture", &card.architecture);
    push_opt_row(&mut rows, "Parameters", &card.parameters);
    push_opt_row(&mut rows, "Parameters (non-embed)", &card.parameters_non_embedding);
    push_opt_row(&mut rows, "Layers", &card.num_layers);
    push_opt_row(&mut rows, "Attention heads", &card.attention_heads);
    push_opt_row(&mut rows, "Context length", &card.context_length);
    push_opt_row(&mut rows, "Quantization", &card.quantization);
    push_opt_row(&mut rows, "License", &card.license);
    push_opt_row(&mut rows, "Pipeline", &card.pipeline_tag);
    push_opt_row(&mut rows, "Base model", &card.base_model);
    let ghost before = rows@;
    let ghost tags = card.tags@.map_values(|t: String| t@);
    if card.tags.len() > 0 {
        let mut joined = String::new();
        let mut i: usize = 0;
        while i < card.tags.len()
            invariant
                tags == card.tags@.map_values(|t: String| t@),
                i <= card.tags@.len(),
                joined@ == join_tags(tags.take(i as int)),
            decreases card.tags@.len() - i,
        {
            proof {
                assert(tags.take(i + 1).drop_last() =~= tags.take(i as int));
            }
            if i > 0 {
                push_str(&mut joined, ", ");
            }
            push_str(&mut joined, card.tags[i].as_str());
            proof {
                if i == 0 {
                    assert(joined@ =~= join_tags(tags.take(1)));
                }
            }
            i = i + 1;
        }
        proof {
            assert(tags.take(tags.len() as int) =~= tags);
        }
        rows.push((to_string("Tags"), joined));
        proof {
            assert(rows_view(rows@) =~= rows_view(before).push(("Tags"@, join_tags(tags))));
        }
    }
    proof {
        assert(rows_view(rows@) =~= spec_card_rows(card_model(*card)));
    }
    rows
}

/// The parameter table of a sampling set.
pub fn param_rows(set: &SamplingSet) -> (r: Vec<(String, String)>)
    ensures
        rows_view(r@) == spec_param_rows(sampling_model(*set)),
{
    let mut rows: Vec<(String, String)> = Vec::new();
    proof {
        assert(rows_view(rows@) =~= Seq::<(Text, Text)>::empty());
    }
    push_opt_row(&mut rows, "Temperature", &set.temperature);
    push_opt_row(&mut rows, "Top-P", &set.top_p);
    push_opt_row(&mut rows, "Top-K", &set.top_k);
    push_opt_row(&mut rows, "Min-P", &set.min_p);
    push_opt_row(&mut rows, "Presence Penalty", &set.presence_penalty);
    push_opt_row(&mut rows, "Repetition Penalty", &set.repetition_penalty);
    push_opt_row(&mut rows, "Max Tokens", &set.max_tokens);
    let ghost before = rows@;
    let mut i: usize = 0;
    while i < set.extra.len()
        invariant
            i <= set.extra@.len(),
            rows_view(rows@) == rows_view(before) + rows_view(set.extra@.take(i as int)),
        decreases set.extra@.len() - i,
    {
        let (k, v) = &set.extra[i];
        let ghost mid = rows@;
        rows.push((to_string(k.as_str()), to_string(v.as_str())));
        proof {
            assert(rows_view(set.extra@.take(i + 1)) =~= rows_view(set.extra@.take(i as int)).push(
                (k@, v@),
            ));
            assert(rows_view(rows@) =~= rows_view(mid).push((k@, v@)));
        }
        i = i + 1;
    }
    proof {
        assert(set.extra@.take(set.extra@.len() as int) =~= set.extra@);
        assert(rows_view(rows@) =~= spec_param_rows(sampling_model(*set)));
    }
    rows
}

} // verus!
