//! Case-insensitive glob filtering of names (metadata keys, tensor names,
//! file names) with the `glob` crate.

use vstd::prelude::*;
use crate::text::{lowercase, push_str, to_lowercase, to_string};

verus! {

#[verifier::external_type_specification]
#[verifier::external_body]
pub struct ExPattern(glob::Pattern);

#[verifier::external_type_specification]
#[verifier::external_body]
pub struct ExPatternError(glob::PatternError);

/// A pattern that surely compiles: no `[` and no two `*` in a row.
pub open spec fn compiles_surely(p: Seq<char>) -> bool {
    forall|i: int|
        0 <= i < p.len() ==> #[trigger] p[i] != '[' && !(p[i] == '*' && i + 1 < p.len() && p[i + 1] == '*')
}

/// A pattern whose meaning is the same on every platform: no `[`, no two
/// `*` in a row, and no path separator (`/` or `\`).
pub open spec fn plain_glob(p: Seq<char>) -> bool {
    &&& compiles_surely(p)
    &&& forall|i: int| 0 <= i < p.len() ==> #[trigger] p[i] != '/' && p[i] != '\\'
}

/// Whether `t` matches the glob pattern `p`, case-sensitively: `*` matches
/// any sequence of characters, `?` any one character, and any other
/// character itself.
pub open spec fn glob_spec(p: Seq<char>, t: Seq<char>) -> bool
    decreases p.len(), t.len(),
{
    if p.len() == 0 {
        t.len() == 0
    } else if p[0] == '*' {
        glob_spec(p.drop_first(), t) || (t.len() > 0 && glob_spec(p, t.drop_first()))
    } else if t.len() == 0 {
        false
    } else if p[0] == '?' {
        glob_spec(p.drop_first(), t.drop_first())
    } else {
        p[0] == t[0] && glob_spec(p.drop_first(), t.drop_first())
    }
}

/// What is known of whether `text` matches the glob pattern `p`: for a
/// pattern of [`plain_glob`] the answer is [`glob_spec`].
pub open spec fn glob_facts(p: Seq<char>, text: Seq<char>, r: bool) -> bool {
    plain_glob(p) ==> r == glob_spec(p, text)
}

/// `glob::Pattern::new`: compile a Unix shell-style pattern.  It fails only
/// at a `[` that opens no valid range or at a run of two or more `*`, so a
/// pattern without these compiles.  Which patterns with them compile is not
/// stated (for `**` it depends on the platform's path separators).
#[verifier::external_body]
fn compile_glob(pattern: &str) -> (r: Result<glob::Pattern, glob::PatternError>)
    ensures
        compiles_surely(pattern@) ==> r is Ok,
{
    glob::Pattern::new(pattern)
}

/// A compiled glob pattern together with the text it was compiled from.
/// Values are made only by [`Glob::compile`].
pub struct Glob {
    source: String,
    pattern: glob::Pattern,
}

impl Glob {
    /// The text the pattern was compiled from.
    pub closed spec fn source(&self) -> Seq<char> {
        self.source@
    }

    /// Compile `source` as a glob pattern.
    pub fn compile(source: &str) -> (r: Result<Glob, glob::PatternError>)
        ensures
            r matches Ok(g) ==> g.source() == source@,
            compiles_surely(source@) ==> r is Ok,
    {
        match compile_glob(source) {
            Ok(p) => Ok(Glob { source: to_string(source), pattern: p }),
            Err(e) => Err(e),
        }
    }
}

/// `glob::Pattern::matches` with the default options (case-sensitive,
/// separators and leading dots not special): whether `text` matches the
/// pattern of `g`.  For a pattern of [`plain_glob`] the answer is
/// [`glob_spec`]; for a pattern with `**` or a path separator it depends on
/// the platform (Windows treats `/` and `\` alike), and is not stated.
#[verifier::external_body]
fn glob_matches(g: &Glob, text: &str) -> (r: bool)
    ensures
        glob_facts(g.source(), text@, r),
{
    g.pattern.matches(text)
}

/// The pattern text compiled for `filter`: the lowercased filter, wrapped in
/// `*…*` when `surround`.
pub open spec fn spec_glob_source(filter: Seq<char>, surround: bool) -> Seq<char> {
    if surround {
        seq!['*'] + lowercase(filter) + seq!['*']
    } else {
        lowercase(filter)
    }
}

/// The pattern text compiled for `filter` (see [`spec_glob_source`]).
pub fn glob_source(filter: &str, surround: bool) -> (s: String)
    ensures
        s@ == spec_glob_source(filter@, surround),
{
    let lowered = to_lowercase(filter);
    if surround {
        let mut s = to_string("*");
        push_str(&mut s, lowered.as_str());
        push_str(&mut s, "*");
        proof {
            reveal_strlit("*");
            assert(s@ =~= seq!['*'] + lowercase(filter@) + seq!['*']);
        }
        s
    } else {
        lowered
    }
}

/// For each name, whether it is selected by `filter`: every name when there
/// is no filter; otherwise whether the lowercase form of the name matches
/// the glob pattern [`spec_glob_source`] of the filter, which for a pattern
/// of [`plain_glob`] (always compiled) is [`glob_spec`].  Fails when the
/// pattern does not compile.
pub fn match_flags(names: &[&str], filter: Option<&str>, surround: bool) -> (r: Result<
    Vec<bool>,
    glob::PatternError,
>)
    ensures
        r matches Ok(keep) ==> keep@.len() == names@.len(),
        filter is None ==> (r matches Ok(keep) && forall|i: int| 0 <= i < keep@.len() ==> keep@[i]),
        filter matches Some(f) ==> {
            let src = spec_glob_source(f@, surround);
            &&& compiles_surely(src) ==> r is Ok
            &&& plain_glob(src) ==> (r matches Ok(keep) && forall|i: int|
                0 <= i < keep@.len() ==> #[trigger] keep@[i] == glob_spec(src, lowercase(names@[i]@)))
            &&& (r matches Ok(keep) ==> forall|i: int|
                0 <= i < keep@.len() ==> glob_facts(src, lowercase(names@[i]@), #[trigger] keep@[i]))
        },
{
    let pattern = match filter {
        None => {
            let mut keep: Vec<bool> = Vec::new();
            let mut i: usize = 0;
            while i < names.len()
                invariant
                    i <= names@.len(),
                    keep@.len() == i,
                    forall|j: int| 0 <= j < i ==> keep@[j],
                decreases names@.len() - i,
            {
                keep.push(true);
                i = i + 1;
            }
            return Ok(keep);
        },
        Some(f) => {
            let source = glob_source(f, surround);
            match Glob::compile(source.as_str()) {
                Ok(p) => p,
                Err(e) => return Err(e),
            }
        },
    };
    let ghost src = pattern.source();
    let mut keep: Vec<bool> = Vec::new();
    let mut i: usize = 0;
    while i < names.len()
        invariant
            i <= names@.len(),
            keep@.len() == i,
            src == pattern.source(),
            forall|j: int| 0 <= j < i ==> glob_facts(src, lowercase(names@[j]@), #[trigger] keep@[j]),
        decreases names@.len() - i,
    {
        let name = to_lowercase(names[i]);
        keep.push(glob_matches(&pattern, name.as_str()));
        i = i + 1;
    }
    Ok(keep)
}

} // verus!
