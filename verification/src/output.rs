//! Output paths: the `--output` path when given, else a sibling of the
//! source file named `<stem><suffix>.gguf`.
//!
//! Paths are Unix paths held as strings; the parent, file name and file stem
//! follow `std::path::Path` on Unix: components are separated by `/`, empty
//! components and `.` components (but a leading `.`) are ignored, and the
//! parent is the path up to the end of the component before the last.

use vstd::prelude::*;
use crate::chars::window_string;
use crate::text::{chars_of, push_str, to_string};

verus! {

broadcast use vstd::seq::group_seq_axioms;

/// The path begins at the root.
pub open spec fn has_root(p: Seq<char>) -> bool {
    p.len() > 0 && p[0] == '/'
}

/// The path begins with a `.` component (`.` or `./…`).
pub open spec fn has_cur_dir(p: Seq<char>) -> bool {
    !has_root(p) && p.len() > 0 && p[0] == '.' && (p.len() == 1 || p[1] == '/')
}

/// Where the components after the root or leading `.` begin.
pub open spec fn body_start(p: Seq<char>) -> int {
    if has_root(p) || has_cur_dir(p) {
        1
    } else {
        0
    }
}

/// Position of the last `/` in `p[lo..hi]`, or `-1`.
pub open spec fn last_sep(p: Seq<char>, lo: int, hi: int) -> int
    decreases hi - lo,
{
    if hi <= lo {
        -1
    } else if p[hi - 1] == '/' {
        hi - 1
    } else {
        last_sep(p, lo, hi - 1)
    }
}

pub proof fn lemma_last_sep(p: Seq<char>, lo: int, hi: int)
    ensures
        last_sep(p, lo, hi) == -1 || (lo <= last_sep(p, lo, hi) < hi),
    decreases hi - lo,
{
    if hi > lo && p[hi - 1] != '/' {
        lemma_last_sep(p, lo, hi - 1);
    }
}

/// The window of the last component in `p[lo..hi]` that is neither empty
/// nor `.`.
pub open spec fn last_component(p: Seq<char>, lo: int, hi: int) -> Option<(int, int)>
    decreases hi - lo,
{
    if hi <= lo {
        None
    } else {
        let k = last_sep(p, lo, hi);
        proof {
            lemma_last_sep(p, lo, hi);
        }
        let st = if k < 0 {
            lo
        } else {
            k + 1
        };
        if st == hi || p.subrange(st, hi) == seq!['.'] {
            if k < 0 {
                None
            } else {
                last_component(p, lo, k)
            }
        } else {
            Some((st, hi))
        }
    }
}

/// The file name: the last component, unless it is `..` or there is none.
pub open spec fn file_name(p: Seq<char>) -> Option<Seq<char>> {
    match last_component(p, body_start(p), p.len() as int) {
        Some((s, e)) => if p.subrange(s, e) == seq!['.', '.'] {
            None
        } else {
            Some(p.subrange(s, e))
        },
        None => None,
    }
}

/// The parent: the path up to the end of the component before the last (or
/// up to the root or leading `.`); `Some("")` for a single relative
/// component or a lone `.`; `None` for the root alone or the empty path.
pub open spec fn parent(p: Seq<char>) -> Option<Seq<char>> {
    let bs = body_start(p);
    match last_component(p, bs, p.len() as int) {
        Some((s, _)) => Some(
            p.take(
                match last_component(p, bs, s) {
                    Some((_, e)) => e,
                    None => bs,
                },
            ),
        ),
        None => if has_cur_dir(p) {
            Some(Seq::empty())
        } else {
            None
        },
    }
}

/// Position of the last `.` in `s`, or `-1`.
pub open spec fn last_dot(s: Seq<char>) -> int
    decreases s.len(),
{
    if s.len() == 0 {
        -1
    } else if s.last() == '.' {
        s.len() - 1
    } else {
        last_dot(s.drop_last())
    }
}

/// The stem of a file name: the part before its last `.`, unless that part
/// is empty or there is no `.`.
pub open spec fn file_stem(name: Seq<char>) -> Seq<char> {
    let k = last_dot(name);
    if k <= 0 {
        name
    } else {
        name.take(k)
    }
}

/// `base` joined with `name` (`PathBuf::push`): `name` itself when it is
/// absolute, else `name` after `base` and a `/` where `base` does not end
/// with one.
pub open spec fn join(base: Seq<char>, name: Seq<char>) -> Seq<char> {
    if has_root(name) {
        name
    } else if base.len() == 0 || base.last() == '/' {
        base + name
    } else {
        base + seq!['/'] + name
    }
}

/// The output path: `output` when given, else `<dir>/<stem><suffix>.gguf`
/// next to `source` (`.` when it has no parent; the whole source when it has
/// no file name).
pub open spec fn spec_resolve_output(source: Seq<char>, output: Option<Seq<char>>, suffix: Seq<char>) -> Seq<char> {
    match output {
        Some(o) => o,
        None => {
            let dir = match parent(source) {
                Some(q) => q,
                None => seq!['.'],
            };
            let stem = match file_name(source) {
                Some(n) => file_stem(n),
                None => source,
            };
            join(dir, stem + suffix + ".gguf"@)
        },
    }
}

fn body_start_exec(p: &Vec<char>) -> (r: usize)
    ensures
        r == body_start(p@),
        r <= p@.len(),
{
    let n = p.len();
    if n > 0 && p[0] == '/' {
        1
    } else if n > 0 && p[0] == '.' && (n == 1 || p[1] == '/') {
        1
    } else {
        0
    }
}

fn last_sep_exec(p: &Vec<char>, lo: usize, hi: usize) -> (r: Option<usize>)
    requires
        lo <= hi <= p@.len(),
    ensures
        match r {
            Some(k) => last_sep(p@, lo as int, hi as int) == k && lo <= k < hi,
            None => last_sep(p@, lo as int, hi as int) == -1,
        },
{
    let mut i = hi;
    while i > lo
        invariant
            lo <= i <= hi <= p@.len(),
            last_sep(p@, lo as int, hi as int) == last_sep(p@, lo as int, i as int),
        decreases i,
    {
        if p[i - 1] == '/' {
            return Some(i - 1);
        }
        i = i - 1;
    }
    None
}

fn last_component_exec(p: &Vec<char>, lo: usize, hi: usize) -> (r: Option<(usize, usize)>)
    requires
        lo <= hi <= p@.len(),
    ensures
        match r {
            Some((s, e)) => last_component(p@, lo as int, hi as int) == Some((s as int, e as int))
                && lo <= s <= e <= hi,
            None => last_component(p@, lo as int, hi as int) is None,
        },
    decreases hi - lo,
{
    if hi <= lo {
        return None;
    }
    let k = last_sep_exec(p, lo, hi);
    let st = match k {
        Some(k) => k + 1,
        None => lo,
    };
    let dot = hi - st == 1 && p[st] == '.';
    proof {
        if hi - st == 1 {
            assert(p@.subrange(st as int, hi as int) =~= seq![p@[st as int]]);
        } else if st < hi {
            assert(p@.subrange(st as int, hi as int).len() != 1);
        }
    }
    if st == hi || dot {
        match k {
            Some(k) => {
                proof {
                    assert(last_component(p@, lo as int, hi as int) == last_component(
                        p@,
                        lo as int,
                        k as int,
                    ));
                }
                last_component_exec(p, lo, k)
            },
            None => None,
        }
    } else {
        proof {
            if p@.subrange(st as int, hi as int) == seq!['.'] {
                assert(p@.subrange(st as int, hi as int).len() == 1);
                assert(p@.subrange(st as int, hi as int)[0] == '.');
                assert(p@[st as int] == '.');
            }
            assert(last_component(p@, lo as int, hi as int) == Some((st as int, hi as int)));
        }
        Some((st, hi))
    }
}

fn is_dot_dot(p: &Vec<char>, s: usize, e: usize) -> (b: bool)
    requires
        s <= e <= p@.len(),
    ensures
        b == (p@.subrange(s as int, e as int) == seq!['.', '.']),
{
    if e - s == 2 && p[s] == '.' && p[s + 1] == '.' {
        proof {
            assert(p@.subrange(s as int, e as int) =~= seq!['.', '.']);
        }
        true
    } else {
        proof {
            if p@.subrange(s as int, e as int) == seq!['.', '.'] {
                assert(p@.subrange(s as int, e as int).len() == 2);
                assert(p@.subrange(s as int, e as int)[0] == p@[s as int]);
                assert(p@.subrange(s as int, e as int)[1] == p@[s + 1]);
            }
        }
        false
    }
}

/// Resolve an optional `--output` path against the source file.
pub fn resolve_output(source: &str, output: Option<&str>, suffix: &str) -> (r: String)
    ensures
        r@ == spec_resolve_output(
            source@,
            match output {
                Some(o) => Some(o@),
                None => None,
            },
            suffix@,
        ),
{
    if let Some(o) = output {
        return to_string(o);
    }
    let p = chars_of(source);
    let n = p.len();
    let bs = body_start_exec(&p);
    let last = last_component_exec(&p, bs, n);
    // The directory.
    let mut out = match last {
        Some((s, _)) => {
            let end = match last_component_exec(&p, bs, s) {
                Some((_, e)) => e,
                None => bs,
            };
            proof {
                assert(p@.subrange(0, end as int) =~= p@.take(end as int));
            }
            window_string(&p, 0, end)
        },
        None => {
            if n > 0 && p[0] != '/' && p[0] == '.' && (n == 1 || p[1] == '/') {
                String::new()
            } else {
                to_string(".")
            }
        },
    };
    let ghost dir = out@;
    proof {
        assert(dir == match parent(source@) {
            Some(q) => q,
            None => seq!['.'],
        }) by {
            reveal_strlit(".");
        }
    }
    // The new file name.
    let mut name = match last {
        Some((s, e)) => if is_dot_dot(&p, s, e) {
            to_string(source)
        } else {
            let mut k = e;
            while k > s && p[k - 1] != '.'
                invariant
                    s <= k <= e <= p@.len(),
                    last_dot(p@.subrange(s as int, e as int)) == last_dot(
                        p@.subrange(s as int, k as int),
                    ),
                decreases k,
            {
                proof {
                    assert(p@.subrange(s as int, k as int).drop_last() =~= p@.subrange(
                        s as int,
                        k - 1,
                    ));
                }
                k = k - 1;
            }
            proof {
                if k > s {
                    assert(last_dot(p@.subrange(s as int, k as int)) == k - 1 - s);
                } else {
                    assert(p@.subrange(s as int, k as int) =~= Seq::<char>::empty());
                }
            }
            if k - s <= 1 {
                window_string(&p, s, e)
            } else {
                proof {
                    assert(p@.subrange(s as int, e as int).take(k - 1 - s) =~= p@.subrange(
                        s as int,
                        k - 1,
                    ));
                }
                window_string(&p, s, k - 1)
            }
        },
        None => to_string(source),
    };
    proof {
        assert(name@ == match file_name(source@) {
            Some(nm) => file_stem(nm),
            None => source@,
        });
    }
    push_str(&mut name, suffix);
    push_str(&mut name, ".gguf");
    if name.as_str().as_bytes().len() > 0 && chars_of(name.as_str())[0] == '/' {
        proof {
            vstd::utf8::encode_utf8_decode_utf8(name@);
        }
        return name;
    }
    let ghost nm = name@;
    proof {
        if nm.len() > 0 {
            assert(vstd::utf8::encode_utf8(nm).len() > 0) by {
                vstd::utf8::encode_utf8_decode_utf8(nm);
                if vstd::utf8::encode_utf8(nm).len() == 0 {
                    assert(vstd::utf8::encode_utf8(nm) =~= Seq::<u8>::empty());
                    assert(vstd::utf8::decode_utf8(Seq::<u8>::empty()) =~= Seq::<char>::empty());
                }
            }
        }
        assert(!has_root(nm));
    }
    let dv = chars_of(out.as_str());
    proof {
        reveal_strlit("/");
    }
    if dv.len() > 0 && dv[dv.len() - 1] != '/' {
        push_str(&mut out, "/");
    }
    push_str(&mut out, name.as_str());
    proof {
        assert(out@ =~= join(dir, nm));
    }
    out
}

} // verus!
