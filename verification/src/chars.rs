//! Searching, trimming and splitting text held as a sequence of characters.
//!
//! Positions are character positions.  Each executable function works on a
//! window `v[lo..hi]` of a character vector and is specified over the
//! corresponding subsequence.

use vstd::prelude::*;

verus! {

broadcast use vstd::seq::group_seq_axioms;

/// `s` begins with `p`.
pub open spec fn starts_with(s: Seq<char>, p: Seq<char>) -> bool {
    p.len() <= s.len() && s.take(p.len() as int) == p
}

/// `s` ends with `p`.
pub open spec fn ends_with(s: Seq<char>, p: Seq<char>) -> bool {
    p.len() <= s.len() && s.skip(s.len() - p.len()) == p
}

/// Position of the first occurrence of `p` in `s`, or `-1`.
pub open spec fn find(s: Seq<char>, p: Seq<char>) -> int
    decreases s.len(),
{
    if starts_with(s, p) {
        0
    } else if s.len() == 0 {
        -1
    } else {
        let r = find(s.drop_first(), p);
        if r < 0 {
            -1
        } else {
            r + 1
        }
    }
}

/// `p` occurs in `s`.
pub open spec fn contains(s: Seq<char>, p: Seq<char>) -> bool {
    find(s, p) >= 0
}

/// Position of the first `c` in `s`, or `-1`.
pub open spec fn index_of(s: Seq<char>, c: char) -> int {
    find(s, seq![c])
}

/// The whitespace characters of `char::is_whitespace` (Unicode White_Space).
pub open spec fn is_ws(c: char) -> bool {
    ||| c == '\t'
    ||| c == '\n'
    ||| c == '\x0B'
    ||| c == '\x0C'
    ||| c == '\r'
    ||| c == ' '
    ||| c == '\u{85}'
    ||| c == '\u{A0}'
    ||| c == '\u{1680}'
    ||| ('\u{2000}' <= c && c <= '\u{200A}')
    ||| c == '\u{2028}'
    ||| c == '\u{2029}'
    ||| c == '\u{202F}'
    ||| c == '\u{205F}'
    ||| c == '\u{3000}'
}

/// `char::is_whitespace`.
pub fn is_whitespace(c: char) -> (b: bool)
    ensures
        b == is_ws(c),
{
    c == '\t' || c == '\n' || c == '\x0B' || c == '\x0C' || c == '\r' || c == ' ' || c == '\u{85}'
        || c == '\u{A0}' || c == '\u{1680}' || ('\u{2000}' <= c && c <= '\u{200A}') || c
        == '\u{2028}' || c == '\u{2029}' || c == '\u{202F}' || c == '\u{205F}' || c == '\u{3000}'
}

/// `s` without leading characters that satisfy `f`.
pub open spec fn trim_start_by(s: Seq<char>, f: spec_fn(char) -> bool) -> Seq<char>
    decreases s.len(),
{
    if s.len() > 0 && f(s[0]) {
        trim_start_by(s.drop_first(), f)
    } else {
        s
    }
}

/// `s` without trailing characters that satisfy `f`.
pub open spec fn trim_end_by(s: Seq<char>, f: spec_fn(char) -> bool) -> Seq<char>
    decreases s.len(),
{
    if s.len() > 0 && f(s.last()) {
        trim_end_by(s.drop_last(), f)
    } else {
        s
    }
}

pub open spec fn ws() -> spec_fn(char) -> bool {
    |c: char| is_ws(c)
}

/// `str::trim`: no leading or trailing whitespace.
pub open spec fn trim(s: Seq<char>) -> Seq<char> {
    trim_end_by(trim_start_by(s, ws()), ws())
}

/// `s` with every leading copy of the non-empty `p` removed
/// (`str::trim_start_matches` with a string pattern).
pub open spec fn strip_all(s: Seq<char>, p: Seq<char>) -> Seq<char>
    decreases s.len(),
{
    if p.len() > 0 && starts_with(s, p) {
        strip_all(s.skip(p.len() as int), p)
    } else {
        s
    }
}

// ── Lemmas ───────────────────────────────────────────────────────────────────

/// `find` is the first position where `p` occurs.
pub proof fn lemma_find(s: Seq<char>, p: Seq<char>)
    ensures
        -1 <= find(s, p) <= s.len(),
        find(s, p) >= 0 ==> starts_with(s.skip(find(s, p)), p),
        forall|j: int| 0 <= j < find(s, p) ==> !starts_with(#[trigger] s.skip(j), p),
        find(s, p) < 0 ==> forall|j: int| 0 <= j <= s.len() ==> !starts_with(#[trigger] s.skip(j), p),
    decreases s.len(),
{
    assert(s.skip(0) =~= s);
    if starts_with(s, p) {
    } else if s.len() == 0 {
        assert forall|j: int| 0 <= j <= s.len() implies !starts_with(#[trigger] s.skip(j), p) by {
            assert(s.skip(j) =~= s);
        }
    } else {
        let t = s.drop_first();
        lemma_find(t, p);
        assert forall|j: int| 1 <= j <= s.len() implies #[trigger] s.skip(j) =~= t.skip(j - 1) by {}
        if find(t, p) >= 0 {
            assert(s.skip(find(s, p)) =~= t.skip(find(t, p)));
            assert forall|j: int| 0 <= j < find(s, p) implies !starts_with(#[trigger] s.skip(j), p) by {
                if j > 0 {
                    assert(s.skip(j) =~= t.skip(j - 1));
                }
            }
        } else {
            assert forall|j: int| 0 <= j <= s.len() implies !starts_with(#[trigger] s.skip(j), p) by {
                if j > 0 {
                    assert(s.skip(j) =~= t.skip(j - 1));
                }
            }
        }
    }
}

/// A position where `p` occurs, with no earlier occurrence, is `find`.
pub proof fn lemma_find_at(s: Seq<char>, p: Seq<char>, i: int)
    requires
        0 <= i <= s.len(),
        forall|j: int| 0 <= j < i ==> !starts_with(#[trigger] s.skip(j), p),
    ensures
        starts_with(s.skip(i), p) ==> find(s, p) == i,
        i == s.len() && !starts_with(s.skip(i), p) ==> find(s, p) == -1,
{
    lemma_find(s, p);
    if find(s, p) >= 0 && find(s, p) < i {
        assert(starts_with(s.skip(find(s, p)), p));
    }
    if starts_with(s.skip(i), p) && find(s, p) > i {
        assert(!starts_with(s.skip(i), p));
    }
}

// ── Executable searches ──────────────────────────────────────────────────────

/// Whether `v[lo..hi]` begins, at position `at`, with `p`.
pub fn starts_with_at(v: &[char], at: usize, hi: usize, p: &[char]) -> (b: bool)
    requires
        at <= hi <= v@.len(),
    ensures
        b == starts_with(v@.subrange(at as int, hi as int), p@),
{
    let ghost w = v@.subrange(at as int, hi as int);
    if p.len() > hi - at {
        return false;
    }
    let mut j: usize = 0;
    while j < p.len()
        invariant
            at <= hi <= v@.len(),
            w == v@.subrange(at as int, hi as int),
            p@.len() <= hi - at,
            j <= p@.len(),
            forall|k: int| 0 <= k < j ==> v@[at + k] == p@[k],
        decreases p@.len() - j,
    {
        if v[at + j] != p[j] {
            proof {
                assert(w.take(p@.len() as int)[j as int] != p@[j as int]);
            }
            return false;
        }
        j = j + 1;
    }
    proof {
        assert(w.take(p@.len() as int) =~= p@);
    }
    true
}

/// The first position `>= lo` where `p` occurs inside `v[lo..hi]`, relative
/// to `lo`; `None` when there is none.
pub fn find_in(v: &[char], lo: usize, hi: usize, p: &[char]) -> (r: Option<usize>)
    requires
        lo <= hi <= v@.len(),
    ensures
        match r {
            Some(k) => find(v@.subrange(lo as int, hi as int), p@) == k as int && k <= hi - lo,
            None => find(v@.subrange(lo as int, hi as int), p@) == -1,
        },
{
    let ghost w = v@.subrange(lo as int, hi as int);
    let mut i: usize = lo;
    while i <= hi
        invariant
            lo <= i,
            i <= hi + 1,
            hi <= v@.len(),
            w == v@.subrange(lo as int, hi as int),
            forall|j: int| 0 <= j < i - lo ==> !starts_with(#[trigger] w.skip(j), p@),
        decreases hi + 1 - i,
    {
        let b = starts_with_at(v, i, hi, p);
        proof {
            assert(w.skip(i - lo) =~= v@.subrange(i as int, hi as int));
        }
        if b {
            proof {
                lemma_find_at(w, p@, i - lo);
            }
            return Some(i - lo);
        }
        if i == hi {
            proof {
                lemma_find_at(w, p@, i - lo);
            }
            return None;
        }
        i = i + 1;
    }
    proof {
        lemma_find_at(w, p@, hi - lo);
    }
    None
}

/// The first position `>= lo` of `c` inside `v[lo..hi]`, relative to `lo`.
pub fn find_char_in(v: &[char], lo: usize, hi: usize, c: char) -> (r: Option<usize>)
    requires
        lo <= hi <= v@.len(),
    ensures
        match r {
            Some(k) => index_of(v@.subrange(lo as int, hi as int), c) == k as int && k < hi - lo
                && v@[lo + k] == c,
            None => index_of(v@.subrange(lo as int, hi as int), c) == -1,
        },
{
    let pat = vec![c];
    let r = find_in(v, lo, hi, pat.as_slice());
    proof {
        assert(pat@ =~= seq![c]);
        let w = v@.subrange(lo as int, hi as int);
        lemma_find(w, seq![c]);
        if r is Some {
            let k = r->0;
            assert(starts_with(w.skip(k as int), seq![c]));
            assert(w.skip(k as int).take(1)[0] == c);
        }
    }
    r
}

/// The start of `v[lo..hi]` after leading whitespace.
pub fn trim_start_ws(v: &[char], lo: usize, hi: usize) -> (r: usize)
    requires
        lo <= hi <= v@.len(),
    ensures
        lo <= r <= hi,
        v@.subrange(r as int, hi as int) == trim_start_by(v@.subrange(lo as int, hi as int), ws()),
{
    let mut i = lo;
    while i < hi && is_whitespace(v[i])
        invariant
            lo <= i <= hi <= v@.len(),
            trim_start_by(v@.subrange(i as int, hi as int), ws()) == trim_start_by(
                v@.subrange(lo as int, hi as int),
                ws(),
            ),
        decreases hi - i,
    {
        proof {
            assert(v@.subrange(i as int, hi as int).drop_first() =~= v@.subrange(i + 1, hi as int));
        }
        i = i + 1;
    }
    i
}

/// The end of `v[lo..hi]` before trailing whitespace.
pub fn trim_end_ws(v: &[char], lo: usize, hi: usize) -> (r: usize)
    requires
        lo <= hi <= v@.len(),
    ensures
        lo <= r <= hi,
        v@.subrange(lo as int, r as int) == trim_end_by(v@.subrange(lo as int, hi as int), ws()),
{
    let mut i = hi;
    while i > lo && is_whitespace(v[i - 1])
        invariant
            lo <= i <= hi <= v@.len(),
            trim_end_by(v@.subrange(lo as int, i as int), ws()) == trim_end_by(
                v@.subrange(lo as int, hi as int),
                ws(),
            ),
        decreases i,
    {
        proof {
            assert(v@.subrange(lo as int, i as int).drop_last() =~= v@.subrange(lo as int, i - 1));
        }
        i = i - 1;
    }
    i
}

/// The window of `v[lo..hi]` without leading and trailing whitespace.
pub fn trim_ws(v: &[char], lo: usize, hi: usize) -> (r: (usize, usize))
    requires
        lo <= hi <= v@.len(),
    ensures
        lo <= r.0 <= r.1 <= hi,
        v@.subrange(r.0 as int, r.1 as int) == trim(v@.subrange(lo as int, hi as int)),
{
    let a = trim_start_ws(v, lo, hi);
    let b = trim_end_ws(v, a, hi);
    (a, b)
}

/// The window of `v[lo..hi]` after removing every leading copy of `p`.
pub fn strip_all_in(v: &[char], lo: usize, hi: usize, p: &[char]) -> (r: usize)
    requires
        lo <= hi <= v@.len(),
    ensures
        lo <= r <= hi,
        v@.subrange(r as int, hi as int) == strip_all(v@.subrange(lo as int, hi as int), p@),
{
    if p.len() == 0 {
        return lo;
    }
    let mut i = lo;
    while starts_with_at(v, i, hi, p)
        invariant
            lo <= i <= hi <= v@.len(),
            p@.len() > 0,
            strip_all(v@.subrange(i as int, hi as int), p@) == strip_all(
                v@.subrange(lo as int, hi as int),
                p@,
            ),
        decreases hi - i,
    {
        proof {
            assert(v@.subrange(i as int, hi as int).skip(p@.len() as int) =~= v@.subrange(
                i + p@.len(),
                hi as int,
            ));
        }
        i = i + p.len();
    }
    i
}

/// The text of `v[lo..hi]`.
pub fn window_string(v: &[char], lo: usize, hi: usize) -> (s: String)
    requires
        lo <= hi <= v@.len(),
    ensures
        s@ == v@.subrange(lo as int, hi as int),
{
    let mut s = String::new();
    let mut i = lo;
    while i < hi
        invariant
            lo <= i <= hi <= v@.len(),
            s@ == v@.subrange(lo as int, i as int),
        decreases hi - i,
    {
        crate::text::push_char(&mut s, v[i]);
        proof {
            assert(v@.subrange(lo as int, i + 1) =~= v@.subrange(lo as int, i as int).push(v@[i as int]));
        }
        i = i + 1;
    }
    s
}

// ── Character sets ───────────────────────────────────────────────────────────

/// Membership in a set of characters given as a sequence.
pub open spec fn in_set(set: Seq<char>) -> spec_fn(char) -> bool {
    |c: char| set.contains(c)
}

fn member(set: &[char], c: char) -> (b: bool)
    ensures
        b == set@.contains(c),
{
    let mut i: usize = 0;
    while i < set.len()
        invariant
            i <= set@.len(),
            forall|j: int| 0 <= j < i ==> set@[j] != c,
        decreases set@.len() - i,
    {
        if set[i] == c {
            proof {
                assert(set@[i as int] == c);
            }
            return true;
        }
        i = i + 1;
    }
    false
}

/// The start of `v[lo..hi]` after leading characters of `set`
/// (`str::trim_start_matches` with a character set).
pub fn trim_start_set(v: &[char], lo: usize, hi: usize, set: &[char]) -> (r: usize)
    requires
        lo <= hi <= v@.len(),
    ensures
        lo <= r <= hi,
        v@.subrange(r as int, hi as int) == trim_start_by(
            v@.subrange(lo as int, hi as int),
            in_set(set@),
        ),
{
    let mut i = lo;
    while i < hi && member(set, v[i])
        invariant
            lo <= i <= hi <= v@.len(),
            trim_start_by(v@.subrange(i as int, hi as int), in_set(set@)) == trim_start_by(
                v@.subrange(lo as int, hi as int),
                in_set(set@),
            ),
        decreases hi - i,
    {
        proof {
            assert(v@.subrange(i as int, hi as int).drop_first() =~= v@.subrange(i + 1, hi as int));
        }
        i = i + 1;
    }
    i
}

/// The end of `v[lo..hi]` before trailing characters of `set`
/// (`str::trim_end_matches` with a character set).
pub fn trim_end_set(v: &[char], lo: usize, hi: usize, set: &[char]) -> (r: usize)
    requires
        lo <= hi <= v@.len(),
    ensures
        lo <= r <= hi,
        v@.subrange(lo as int, r as int) == trim_end_by(
            v@.subrange(lo as int, hi as int),
            in_set(set@),
        ),
{
    let mut i = hi;
    while i > lo && member(set, v[i - 1])
        invariant
            lo <= i <= hi <= v@.len(),
            trim_end_by(v@.subrange(lo as int, i as int), in_set(set@)) == trim_end_by(
                v@.subrange(lo as int, hi as int),
                in_set(set@),
            ),
        decreases i,
    {
        proof {
            assert(v@.subrange(lo as int, i as int).drop_last() =~= v@.subrange(lo as int, i - 1));
        }
        i = i - 1;
    }
    i
}

/// `s` without the characters of `set`.
pub open spec fn remove_set(s: Seq<char>, set: Seq<char>) -> Seq<char>
    decreases s.len(),
{
    if s.len() == 0 {
        s
    } else {
        remove_set(s.drop_last(), set) + if set.contains(s.last()) {
            Seq::empty()
        } else {
            seq![s.last()]
        }
    }
}

/// `s` with each non-overlapping occurrence of the non-empty `p`, from the
/// left, replaced by `rep` (`str::replace`).
pub open spec fn replace_all(s: Seq<char>, p: Seq<char>, rep: Seq<char>) -> Seq<char>
    decreases s.len(),
{
    if s.len() == 0 || p.len() == 0 {
        s
    } else if starts_with(s, p) {
        rep + replace_all(s.skip(p.len() as int), p, rep)
    } else {
        seq![s[0]] + replace_all(s.drop_first(), p, rep)
    }
}

/// The characters of `v[lo..hi]` outside `set`.
pub fn remove_set_in(v: &[char], lo: usize, hi: usize, set: &[char]) -> (r: Vec<char>)
    requires
        lo <= hi <= v@.len(),
    ensures
        r@ == remove_set(v@.subrange(lo as int, hi as int), set@),
{
    let mut r: Vec<char> = Vec::new();
    let mut i = lo;
    while i < hi
        invariant
            lo <= i <= hi <= v@.len(),
            r@ == remove_set(v@.subrange(lo as int, i as int), set@),
        decreases hi - i,
    {
        proof {
            assert(v@.subrange(lo as int, i + 1).drop_last() =~= v@.subrange(lo as int, i as int));
        }
        if !member(set, v[i]) {
            r.push(v[i]);
        }
        proof {
            assert(r@ =~= remove_set(v@.subrange(lo as int, i + 1), set@));
        }
        i = i + 1;
    }
    r
}

/// `v[lo..hi]` with every occurrence of the non-empty `p` replaced by `rep`.
pub fn replace_all_in(v: &[char], lo: usize, hi: usize, p: &[char], rep: &[char]) -> (r: Vec<char>)
    requires
        lo <= hi <= v@.len(),
        p@.len() > 0,
    ensures
        r@ == replace_all(v@.subrange(lo as int, hi as int), p@, rep@),
{
    let mut r: Vec<char> = Vec::new();
    let mut i = lo;
    proof {
        assert(r@ + replace_all(v@.subrange(lo as int, hi as int), p@, rep@) =~= replace_all(
            v@.subrange(lo as int, hi as int),
            p@,
            rep@,
        ));
    }
    while i < hi
        invariant
            lo <= i <= hi <= v@.len(),
            p@.len() > 0,
            r@ + replace_all(v@.subrange(i as int, hi as int), p@, rep@) == replace_all(
                v@.subrange(lo as int, hi as int),
                p@,
                rep@,
            ),
        decreases hi - i,
    {
        let ghost w = v@.subrange(i as int, hi as int);
        proof {
            assert(w.len() > 0);
        }
        if starts_with_at(v, i, hi, p) {
            let ghost before = r@;
            let mut j: usize = 0;
            while j < rep.len()
                invariant
                    j <= rep@.len(),
                    r@ == before + rep@.take(j as int),
                decreases rep@.len() - j,
            {
                r.push(rep[j]);
                proof {
                    assert(rep@.take(j + 1) =~= rep@.take(j as int).push(rep@[j as int]));
                }
                j = j + 1;
            }
            proof {
                assert(rep@.take(rep@.len() as int) =~= rep@);
                assert(w.skip(p@.len() as int) =~= v@.subrange(i + p@.len(), hi as int));
                assert(r@ + replace_all(v@.subrange(i + p@.len(), hi as int), p@, rep@) =~= before
                    + replace_all(w, p@, rep@));
            }
            i = i + p.len();
        } else {
            let ghost before = r@;
            r.push(v[i]);
            proof {
                assert(w.drop_first() =~= v@.subrange(i + 1, hi as int));
                assert(r@ + replace_all(v@.subrange(i + 1, hi as int), p@, rep@) =~= before
                    + replace_all(w, p@, rep@));
            }
            i = i + 1;
        }
    }
    r
}

// ── Lines and words ──────────────────────────────────────────────────────────

/// A line without the `\r` of a `\r\n` ending.
pub open spec fn strip_cr(l: Seq<char>) -> Seq<char> {
    if l.len() > 0 && l.last() == '\r' {
        l.drop_last()
    } else {
        l
    }
}

/// The lines of `s` (`str::lines`): split at `\n`, a `\r` before the `\n`
/// removed, and no empty line after a final `\n`.
pub open spec fn lines(s: Seq<char>) -> Seq<Seq<char>>
    decreases s.len(),
{
    if s.len() == 0 {
        Seq::empty()
    } else {
        let k = index_of(s, '\n');
        if k < 0 {
            seq![s]
        } else {
            proof {
                lemma_find(s, seq!['\n']);
            }
            seq![strip_cr(s.take(k))] + lines(s.skip(k + 1))
        }
    }
}

/// The windows of the lines of `v`.
pub fn line_windows(v: &[char]) -> (r: Vec<(usize, usize)>)
    ensures
        forall|i: int| 0 <= i < r@.len() ==> (#[trigger] r@[i]).0 <= r@[i].1 <= v@.len(),
        r@.map_values(|w: (usize, usize)| v@.subrange(w.0 as int, w.1 as int)) == lines(v@),
{
    let n = v.len();
    let mut r: Vec<(usize, usize)> = Vec::new();
    let mut pos: usize = 0;
    proof {
        assert(v@.subrange(0, n as int) =~= v@);
    }
    while pos < n
        invariant
            n == v@.len(),
            pos <= n,
            forall|i: int| 0 <= i < r@.len() ==> (#[trigger] r@[i]).0 <= r@[i].1 <= v@.len(),
            r@.map_values(|w: (usize, usize)| v@.subrange(w.0 as int, w.1 as int)) + lines(
                v@.subrange(pos as int, n as int),
            ) == lines(v@),
        decreases n - pos,
    {
        let ghost rest = v@.subrange(pos as int, n as int);
        let ghost before = r@;
        match find_char_in(v, pos, n, '\n') {
            Some(k) => {
                let end = pos + k;
                let e2 = if end > pos && v[end - 1] == '\r' {
                    end - 1
                } else {
                    end
                };
                r.push((pos, e2));
                proof {
                    assert(rest.take(k as int) =~= v@.subrange(pos as int, end as int));
                    assert(v@.subrange(pos as int, e2 as int) =~= strip_cr(rest.take(k as int)));
                    assert(rest.skip(k + 1) =~= v@.subrange(end + 1, n as int));
                    assert(r@.map_values(|w: (usize, usize)| v@.subrange(w.0 as int, w.1 as int))
                        =~= before.map_values(|w: (usize, usize)| v@.subrange(w.0 as int, w.1 as int)).push(
                        strip_cr(rest.take(k as int)),
                    ));
                }
                pos = end + 1;
            },
            None => {
                r.push((pos, n));
                proof {
                    assert(r@.map_values(|w: (usize, usize)| v@.subrange(w.0 as int, w.1 as int))
                        =~= before.map_values(|w: (usize, usize)| v@.subrange(w.0 as int, w.1 as int)).push(
                        rest,
                    ));
                    assert(v@.subrange(n as int, n as int) =~= Seq::<char>::empty());
                }
                pos = n;
            },
        }
    }
    proof {
        assert(v@.subrange(pos as int, n as int) =~= Seq::<char>::empty());
        assert(r@.map_values(|w: (usize, usize)| v@.subrange(w.0 as int, w.1 as int)) =~= r@.map_values(
            |w: (usize, usize)| v@.subrange(w.0 as int, w.1 as int),
        ) + lines(Seq::<char>::empty()));
    }
    r
}

/// Position of the first whitespace character in `s`, or its length.
pub open spec fn ws_index(s: Seq<char>) -> int
    decreases s.len(),
{
    if s.len() == 0 {
        0
    } else if is_ws(s[0]) {
        0
    } else {
        1 + ws_index(s.drop_first())
    }
}

pub proof fn lemma_ws_index(s: Seq<char>)
    ensures
        0 <= ws_index(s) <= s.len(),
        s.len() > 0 && !is_ws(s[0]) ==> ws_index(s) >= 1,
    decreases s.len(),
{
    if s.len() > 0 {
        lemma_ws_index(s.drop_first());
    }
}

pub proof fn lemma_trim_start_len(s: Seq<char>, f: spec_fn(char) -> bool)
    ensures
        trim_start_by(s, f).len() <= s.len(),
        trim_start_by(s, f).len() > 0 ==> !f(trim_start_by(s, f)[0]),
        trim_start_by(s, f) == s.skip(s.len() - trim_start_by(s, f).len()),
    decreases s.len(),
{
    if s.len() > 0 && f(s[0]) {
        lemma_trim_start_len(s.drop_first(), f);
        assert(s.drop_first().skip(s.drop_first().len() - trim_start_by(s.drop_first(), f).len())
            =~= s.skip(s.len() - trim_start_by(s, f).len()));
    } else {
        assert(s.skip(0) =~= s);
    }
}

pub proof fn lemma_trim_end_len(s: Seq<char>, f: spec_fn(char) -> bool)
    ensures
        trim_end_by(s, f).len() <= s.len(),
        trim_end_by(s, f).len() > 0 ==> !f(trim_end_by(s, f).last()),
        trim_end_by(s, f) == s.take(trim_end_by(s, f).len() as int),
    decreases s.len(),
{
    if s.len() > 0 && f(s.last()) {
        lemma_trim_end_len(s.drop_last(), f);
        assert(s.drop_last().take(trim_end_by(s.drop_last(), f).len() as int) =~= s.take(
            trim_end_by(s, f).len() as int,
        ));
    } else {
        assert(s.take(s.len() as int) =~= s);
    }
}

/// Trimming keeps only characters of the trimmed text.
pub proof fn lemma_trim_within(s: Seq<char>)
    ensures
        forall|i: int| 0 <= i < trim(s).len() ==> s.contains(#[trigger] trim(s)[i]),
{
    let a = trim_start_by(s, ws());
    lemma_trim_start_len(s, ws());
    lemma_trim_end_len(a, ws());
    assert forall|i: int| 0 <= i < trim(s).len() implies s.contains(#[trigger] trim(s)[i]) by {
        assert(trim(s)[i] == a[i]);
        let j = s.len() - a.len() + i;
        assert(s[j] == a[i]);
    }
}

/// A trimmed text neither begins nor ends with whitespace.
pub proof fn lemma_trim_ends(s: Seq<char>)
    ensures
        trim(s).len() > 0 ==> !is_ws(trim(s)[0]) && !is_ws(trim(s).last()),
{
    let a = trim_start_by(s, ws());
    lemma_trim_start_len(s, ws());
    lemma_trim_end_len(a, ws());
    if trim(s).len() > 0 {
        assert(trim(s)[0] == a[0]);
    }
}

/// Removing a set of characters leaves none of them.
pub proof fn lemma_remove_set_excludes(s: Seq<char>, set: Seq<char>)
    ensures
        forall|i: int| 0 <= i < remove_set(s, set).len() ==> !set.contains(#[trigger] remove_set(s, set)[i]),
    decreases s.len(),
{
    if s.len() > 0 {
        lemma_remove_set_excludes(s.drop_last(), set);
        let r0 = remove_set(s.drop_last(), set);
        assert forall|i: int| 0 <= i < remove_set(s, set).len() implies !set.contains(
            #[trigger] remove_set(s, set)[i],
        ) by {
            if i < r0.len() {
                assert(remove_set(s, set)[i] == r0[i]);
            } else {
                assert(remove_set(s, set)[i] == s.last());
            }
        }
    }
}

/// The whitespace-separated words of `s` (`str::split_whitespace`).
pub open spec fn words(s: Seq<char>) -> Seq<Seq<char>>
    decreases s.len(),
{
    let t = trim_start_by(s, ws());
    if t.len() == 0 {
        Seq::empty()
    } else {
        proof {
            lemma_trim_start_len(s, ws());
            lemma_ws_index(t);
        }
        seq![t.take(ws_index(t))] + words(t.skip(ws_index(t)))
    }
}

/// The windows of the whitespace-separated words of `v[lo..hi]`.
pub fn word_windows(v: &[char], lo: usize, hi: usize) -> (r: Vec<(usize, usize)>)
    requires
        lo <= hi <= v@.len(),
    ensures
        forall|i: int| 0 <= i < r@.len() ==> (#[trigger] r@[i]).0 <= r@[i].1 <= v@.len(),
        r@.map_values(|w: (usize, usize)| v@.subrange(w.0 as int, w.1 as int)) == words(
            v@.subrange(lo as int, hi as int),
        ),
{
    let mut r: Vec<(usize, usize)> = Vec::new();
    let mut pos = lo;
    let mut done = false;
    while !done
        invariant
            lo <= pos <= hi <= v@.len(),
            forall|i: int| 0 <= i < r@.len() ==> (#[trigger] r@[i]).0 <= r@[i].1 <= v@.len(),
            !done ==> r@.map_values(|w: (usize, usize)| v@.subrange(w.0 as int, w.1 as int)) + words(
                v@.subrange(pos as int, hi as int),
            ) == words(v@.subrange(lo as int, hi as int)),
            done ==> r@.map_values(|w: (usize, usize)| v@.subrange(w.0 as int, w.1 as int)) == words(
                v@.subrange(lo as int, hi as int),
            ),
        decreases hi - pos, if done { 0int } else { 1int },
    {
        let ghost before = r@;
        let ghost rest = v@.subrange(pos as int, hi as int);
        let a = trim_start_ws(v, pos, hi);
        proof {
            lemma_trim_start_len(rest, ws());
        }
        if a == hi {
            proof {
                assert(words(rest) =~= Seq::<Seq<char>>::empty());
                assert(r@.map_values(|w: (usize, usize)| v@.subrange(w.0 as int, w.1 as int)) =~= r@.map_values(
                    |w: (usize, usize)| v@.subrange(w.0 as int, w.1 as int),
                ) + words(rest));
            }
            done = true;
        } else {
            let mut b = a;
            while b < hi && !is_whitespace(v[b])
                invariant
                    a <= b <= hi <= v@.len(),
                    ws_index(v@.subrange(a as int, hi as int)) == (b - a) + ws_index(
                        v@.subrange(b as int, hi as int),
                    ),
                decreases hi - b,
            {
                proof {
                    assert(v@.subrange(b as int, hi as int).drop_first() =~= v@.subrange(b + 1, hi as int));
                }
                b = b + 1;
            }
            proof {
                let t = v@.subrange(a as int, hi as int);
                assert(t == trim_start_by(rest, ws()));
                assert(ws_index(t) == b - a);
                assert(t.take(b - a) =~= v@.subrange(a as int, b as int));
                assert(t.skip(b - a) =~= v@.subrange(b as int, hi as int));
                assert(!is_ws(t[0]));
            }
            r.push((a, b));
            proof {
                assert(r@.map_values(|w: (usize, usize)| v@.subrange(w.0 as int, w.1 as int)) =~= before.map_values(
                    |w: (usize, usize)| v@.subrange(w.0 as int, w.1 as int),
                ).push(v@.subrange(a as int, b as int)));
            }
            pos = b;
        }
    }
    r
}

} // verus!
