//! `fetch`: which GGUF file of a repository to download, and how file sizes
//! are shown in the listing.

use vstd::prelude::*;
use crate::chars::{ends_with, starts_with, starts_with_at};
use crate::display::{fixed1, fixed2, lemma_units, push_fixed1, push_fixed2, scaled_exec, scaled_value, GIB, MIB};
use crate::hf::{last_slash, Sibling};
use crate::text::{chars_of, push_decimal, push_str, spec_decimal, to_string};

verus! {

/// A direct `http(s)://` link to a `.gguf` file.
pub open spec fn spec_is_direct_url(s: Seq<char>) -> bool {
    (starts_with(s, "https://"@) || starts_with(s, "http://"@)) && ends_with(s, ".gguf"@)
}

/// Whether the argument is a direct link to a GGUF file rather than a
/// repository.
pub fn is_direct_url(s: &str) -> (b: bool)
    ensures
        b == spec_is_direct_url(s@),
{
    let v = chars_of(s);
    let n = v.len();
    let https = chars_of("https://");
    let http = chars_of("http://");
    let ext = chars_of(".gguf");
    proof {
        assert(v@.subrange(0, n as int) =~= v@);
    }
    let scheme = starts_with_at(&v, 0, n, &https) || starts_with_at(&v, 0, n, &http);
    let suffix = n >= ext.len() && starts_with_at(&v, n - ext.len(), n, &ext);
    proof {
        if n >= ext@.len() {
            assert(v@.subrange(n - ext@.len(), n as int) =~= v@.skip(n - ext@.len()));
            assert(v@.skip(n - ext@.len()).take(ext@.len() as int) =~= v@.skip(n - ext@.len()));
        }
    }
    scheme && suffix
}

/// The file name of a direct link: its last `/`-separated segment (possibly
/// empty).
pub fn direct_filename(url: &str) -> (r: String)
    ensures
        r@ == url@.skip(last_slash(url@) + 1),
{
    let v = chars_of(url);
    let mut k = v.len();
    proof {
        assert(v@.take(v@.len() as int) =~= v@);
    }
    while k > 0 && v[k - 1] != '/'
        invariant
            k <= v@.len(),
            last_slash(v@.take(k as int)) == last_slash(v@),
        decreases k,
    {
        proof {
            assert(v@.take(k as int).drop_last() =~= v@.take(k - 1));
        }
        k = k - 1;
    }
    proof {
        if k > 0 {
            assert(last_slash(v@.take(k as int)) == k - 1);
        } else {
            assert(v@.take(0) =~= Seq::<char>::empty());
        }
        assert(v@.skip(last_slash(v@) + 1) =~= v@.subrange(k as int, v@.len() as int));
    }
    crate::chars::window_string(&v, k, v.len())
}

/// A file size as listed: `—` when unknown, `x.xx GB` from 1 GiB, `x.x MB`
/// from 1 MiB, else `n B`.
pub open spec fn spec_format_size(bytes: Option<u64>) -> Seq<char> {
    match bytes {
        None => "—"@,
        Some(b) => if b >= GIB {
            fixed2(scaled_value(b as nat, 30, 100)) + " GB"@
        } else if b >= MIB {
            fixed1(scaled_value(b as nat, 20, 10)) + " MB"@
        } else {
            spec_decimal(b as nat) + " B"@
        },
    }
}

/// Render a file size for the listing.
pub fn format_size(bytes: Option<u64>) -> (s: String)
    ensures
        s@ == spec_format_size(bytes),
{
    proof {
        lemma_units();
    }
    match bytes {
        None => to_string("—"),
        Some(b) => {
            let mut s = String::new();
            if b >= GIB {
                let q = scaled_exec(b, Ghost(30), GIB as u128, 100);
                push_fixed2(&mut s, q);
                push_str(&mut s, " GB");
            } else if b >= MIB {
                let q = scaled_exec(b, Ghost(20), MIB as u128, 10);
                push_fixed1(&mut s, q);
                push_str(&mut s, " MB");
            } else {
                push_decimal(&mut s, b);
                push_str(&mut s, " B");
            }
            proof {
                assert(s@ =~= spec_format_size(bytes));
            }
            s
        },
    }
}

/// Which file a `--file` pattern picks.
#[derive(Debug, PartialEq, Eq, Structural)]
pub enum FileChoice {
    /// No file matches.
    NoMatch,
    /// Exactly one file matches: its position.
    One(usize),
    /// Several files match.
    Ambiguous,
}

/// The number of `true` flags.
pub open spec fn count_true(s: Seq<bool>) -> nat
    decreases s.len(),
{
    if s.len() == 0 {
        0
    } else {
        count_true(s.drop_last()) + if s.last() {
            1nat
        } else {
            0nat
        }
    }
}

/// The choice among files given which of them match: none, the only one,
/// or ambiguous.
pub fn choose_file(matched: &[bool]) -> (r: FileChoice)
    ensures
        count_true(matched@) == 0 ==> r == FileChoice::NoMatch,
        count_true(matched@) == 1 ==> (r matches FileChoice::One(i) && i < matched@.len() && matched@[i as int]),
        count_true(matched@) > 1 ==> r == FileChoice::Ambiguous,
{
    let mut count: usize = 0;
    let mut first: usize = 0;
    let mut i: usize = 0;
    while i < matched.len()
        invariant
            i <= matched@.len(),
            count <= i,
            count == count_true(matched@.take(i as int)),
            count > 0 ==> first < i && matched@[first as int],
        decreases matched@.len() - i,
    {
        proof {
            assert(matched@.take(i + 1).drop_last() =~= matched@.take(i as int));
        }
        if matched[i] {
            if count == 0 {
                first = i;
            }
            count = count + 1;
        }
        i = i + 1;
    }
    proof {
        assert(matched@.take(matched@.len() as int) =~= matched@);
    }
    if count == 0 {
        FileChoice::NoMatch
    } else if count == 1 {
        FileChoice::One(first)
    } else {
        FileChoice::Ambiguous
    }
}

/// The names of the listed files, for matching.
pub fn file_names(files: &[Sibling]) -> (r: Vec<&str>)
    ensures
        r@.len() == files@.len(),
        forall|i: int| 0 <= i < r@.len() ==> (#[trigger] r@[i])@ == files@[i].rfilename@,
{
    let mut r: Vec<&str> = Vec::new();
    let mut i: usize = 0;
    while i < files.len()
        invariant
            i <= files@.len(),
            r@.len() == i,
            forall|j: int| 0 <= j < i ==> (#[trigger] r@[j])@ == files@[j].rfilename@,
        decreases files@.len() - i,
    {
        r.push(files[i].rfilename.as_str());
        i = i + 1;
    }
    r
}

} // verus!
