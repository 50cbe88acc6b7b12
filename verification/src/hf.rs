//! HuggingFace Hub helpers: repository identifiers and the URLs built from
//! them, the listing of GGUF files, and the file name a download is saved
//! under.  The HTTP requests themselves are made by the binary.

use vstd::prelude::*;
use crate::chars::{ends_with, find, find_char_in, index_of, lemma_find_at, starts_with, starts_with_at, strip_all, strip_all_in, trim_end_by, window_string};
use crate::text::{chars_of, push_str, to_string};

verus! {

broadcast use vstd::seq::group_seq_axioms;

/// A resolved `owner/repo` pair (e.g. `Qwen/Qwen3-0.6B-GGUF`).
#[derive(Debug, Clone)]
pub struct RepoId {
    pub owner: String,
    pub repo: String,
}

/// Why a repository identifier could not be read.
#[derive(Debug, PartialEq, Eq, Structural)]
pub enum RepoIdError {
    /// No owner segment.
    MissingOwner,
    /// No repository-name segment.
    MissingRepo,
}

impl RepoIdError {
    pub fn message(&self) -> (s: &'static str)
        ensures
            s@ == (match *self {
                RepoIdError::MissingOwner => "cannot parse repo owner from input"@,
                RepoIdError::MissingRepo => "cannot parse repo name from input"@,
            }),
    {
        match self {
            RepoIdError::MissingOwner => "cannot parse repo owner from input",
            RepoIdError::MissingRepo => "cannot parse repo name from input",
        }
    }
}

pub open spec fn is_slash() -> spec_fn(char) -> bool {
    |c: char| c == '/'
}

/// The path part of a repository reference: trailing `/` removed, and for an
/// `http(s)://` URL the scheme (every leading copy of `https://`, then of
/// `http://`) and the host dropped.
pub open spec fn repo_path(input: Seq<char>) -> Seq<char> {
    let t = trim_end_by(input, is_slash());
    if starts_with(t, "https://"@) || starts_with(t, "http://"@) {
        let w = strip_all(strip_all(t, "https://"@), "http://"@);
        let k = index_of(w, '/');
        if k >= 0 {
            w.skip(k + 1)
        } else {
            w
        }
    } else {
        t
    }
}

/// The text before the first `/` (all of it when there is none).
pub open spec fn first_segment(p: Seq<char>) -> Seq<char> {
    let k = index_of(p, '/');
    if k >= 0 {
        p.take(k)
    } else {
        p
    }
}

/// The text between the first and second `/`, or after the first `/` when
/// there is no second; `None` without any `/`.
pub open spec fn second_segment(p: Seq<char>) -> Option<Seq<char>> {
    let k = index_of(p, '/');
    if k >= 0 {
        Some(first_segment(p.skip(k + 1)))
    } else {
        None
    }
}

/// The owner and repository name in `owner/repo` or in an
/// `https://host/owner/repo[/…]` URL: the first two path segments, both
/// non-empty.
pub open spec fn spec_parse_repo(input: Seq<char>) -> Result<(Seq<char>, Seq<char>), RepoIdError> {
    let p = repo_path(input);
    if first_segment(p).len() == 0 {
        Err(RepoIdError::MissingOwner)
    } else {
        match second_segment(p) {
            Some(r) => if r.len() > 0 {
                Ok((first_segment(p), r))
            } else {
                Err(RepoIdError::MissingRepo)
            },
            None => Err(RepoIdError::MissingRepo),
        }
    }
}

/// Base URL of the Hub.
pub open spec fn hf_base() -> Seq<char> {
    "https://huggingface.co"@
}

/// Base URL of the Hub's model API.
pub open spec fn hf_api() -> Seq<char> {
    "https://huggingface.co/api/models"@
}

/// The end of the window of `v[lo..hi]` before its first `/`, and the start
/// of what follows that `/` (`None` when there is none).
fn split_slash(v: &[char], lo: usize, hi: usize) -> (r: (usize, Option<usize>))
    requires
        lo <= hi <= v@.len(),
    ensures
        ({
            let p = v@.subrange(lo as int, hi as int);
            &&& lo <= r.0 <= hi
            &&& v@.subrange(lo as int, r.0 as int) == first_segment(p)
            &&& match r.1 {
                Some(n) => index_of(p, '/') >= 0 && n == r.0 + 1 && n <= hi && v@.subrange(
                    n as int,
                    hi as int,
                ) == p.skip(index_of(p, '/') + 1),
                None => index_of(p, '/') < 0,
            }
        }),
{
    match find_char_in(v, lo, hi, '/') {
        Some(k) => {
            proof {
                let p = v@.subrange(lo as int, hi as int);
                assert(v@.subrange(lo as int, (lo + k) as int) =~= p.take(k as int));
                assert(v@.subrange((lo + k + 1) as int, hi as int) =~= p.skip(k + 1));
            }
            (lo + k, Some(lo + k + 1))
        },
        None => (hi, None),
    }
}

impl RepoId {
    /// Parse `owner/repo` or any `https://huggingface.co/owner/repo[/…]` URL.
    pub fn parse(input: &str) -> (r: Result<RepoId, RepoIdError>)
        ensures
            match spec_parse_repo(input@) {
                Ok((o, n)) => r matches Ok(id) && id.owner@ == o && id.repo@ == n,
                Err(e) => r == Err::<RepoId, RepoIdError>(e),
            },
    {
        let v = chars_of(input);
        let n = v.len();
        proof {
            assert(v@.subrange(0, n as int) =~= input@);
        }
        let mut hi = n;
        while hi > 0 && v[hi - 1] == '/'
            invariant
                hi <= n == v@.len(),
                v@ == input@,
                trim_end_by(v@.subrange(0, hi as int), is_slash()) == trim_end_by(input@, is_slash()),
            decreases hi,
        {
            proof {
                assert(v@.subrange(0, hi as int).drop_last() =~= v@.subrange(0, hi - 1));
            }
            hi = hi - 1;
        }
        let https = chars_of("https://");
        let http = chars_of("http://");
        let mut lo: usize = 0;
        proof {
            assert(trim_end_by(v@.subrange(0, hi as int), is_slash()) == v@.subrange(0, hi as int));
        }
        if starts_with_at(&v, 0, hi, &https) || starts_with_at(&v, 0, hi, &http) {
            let a = strip_all_in(&v, 0, hi, &https);
            let b = strip_all_in(&v, a, hi, &http);
            let (_h, rest) = split_slash(&v, b, hi);
            match rest {
                Some(x) => {
                    lo = x;
                },
                None => {
                    lo = b;
                },
            }
        }
        let ghost p = repo_path(input@);
        proof {
            assert(v@.subrange(lo as int, hi as int) == p);
        }
        let (oe, after_owner) = split_slash(&v, lo, hi);
        if oe == lo {
            return Err(RepoIdError::MissingOwner);
        }
        let next = match after_owner {
            Some(x) => x,
            None => {
                return Err(RepoIdError::MissingRepo);
            },
        };
        let (re, _after) = split_slash(&v, next, hi);
        if re == next {
            return Err(RepoIdError::MissingRepo);
        }
        Ok(RepoId { owner: window_string(&v, lo, oe), repo: window_string(&v, next, re) })
    }

    /// `owner/repo`.
    pub fn id(&self) -> (s: String)
        ensures
            s@ == self.owner@ + "/"@ + self.repo@,
    {
        let mut s = to_string(self.owner.as_str());
        push_str(&mut s, "/");
        push_str(&mut s, self.repo.as_str());
        s
    }

    /// URL of the Hub API metadata endpoint of the repository.
    pub fn api_url(&self) -> (s: String)
        ensures
            s@ == hf_api() + "/"@ + self.owner@ + "/"@ + self.repo@,
    {
        let mut s = to_string("https://huggingface.co/api/models");
        push_str(&mut s, "/");
        push_str(&mut s, self.owner.as_str());
        push_str(&mut s, "/");
        push_str(&mut s, self.repo.as_str());
        s
    }

    /// URL of a file on the default branch of the repository.
    pub fn file_url(&self, filename: &str) -> (s: String)
        ensures
            s@ == hf_base() + "/"@ + self.owner@ + "/"@ + self.repo@ + "/resolve/main/"@ + filename@,
    {
        let mut s = to_string("https://huggingface.co");
        push_str(&mut s, "/");
        push_str(&mut s, self.owner.as_str());
        push_str(&mut s, "/");
        push_str(&mut s, self.repo.as_str());
        push_str(&mut s, "/resolve/main/");
        push_str(&mut s, filename);
        s
    }

    /// URL of the raw README of the repository.
    pub fn readme_url(&self) -> (s: String)
        ensures
            s@ == hf_base() + "/"@ + self.owner@ + "/"@ + self.repo@ + "/resolve/main/"@
                + "README.md"@,
    {
        self.file_url("README.md")
    }
}

/// A file entry of the Hub API `siblings` list.
#[derive(Debug, Clone)]
pub struct Sibling {
    pub rfilename: String,
    pub size: Option<u64>,
}

/// The part of the Hub API model response that is used.
#[derive(Debug)]
pub struct HfModelInfo {
    pub siblings: Vec<Sibling>,
}

/// The model of a sibling: its file name and size.
pub open spec fn sibling_model(s: Sibling) -> (Seq<char>, Option<u64>) {
    (s.rfilename@, s.size)
}

/// The entries whose file name ends in `.gguf`, in order.
pub open spec fn gguf_only(s: Seq<(Seq<char>, Option<u64>)>) -> Seq<(Seq<char>, Option<u64>)>
    decreases s.len(),
{
    if s.len() == 0 {
        Seq::empty()
    } else {
        gguf_only(s.drop_last()) + if ends_with(s.last().0, ".gguf"@) {
            seq![s.last()]
        } else {
            Seq::empty()
        }
    }
}

/// The siblings whose file name ends in `.gguf`, in order.
pub fn gguf_siblings(siblings: &[Sibling]) -> (r: Vec<Sibling>)
    ensures
        r@.map_values(|s: Sibling| sibling_model(s)) == gguf_only(
            siblings@.map_values(|s: Sibling| sibling_model(s)),
        ),
{
    let ghost all = siblings@.map_values(|s: Sibling| sibling_model(s));
    let suffix = chars_of(".gguf");
    let mut r: Vec<Sibling> = Vec::new();
    let mut i: usize = 0;
    while i < siblings.len()
        invariant
            all == siblings@.map_values(|s: Sibling| sibling_model(s)),
            suffix@ == ".gguf"@,
            i <= siblings@.len(),
            r@.map_values(|s: Sibling| sibling_model(s)) == gguf_only(all.take(i as int)),
        decreases siblings@.len() - i,
    {
        let name = chars_of(siblings[i].rfilename.as_str());
        let n = name.len();
        let keep = n >= suffix.len() && starts_with_at(&name, n - suffix.len(), n, &suffix);
        proof {
            assert(all.take(i + 1).drop_last() =~= all.take(i as int));
            assert(all.take(i + 1).last() == sibling_model(siblings@[i as int]));
            if n >= suffix@.len() {
                assert(name@.subrange(n - suffix@.len(), n as int) =~= name@.skip(n - suffix@.len()));
                assert(name@.skip(n - suffix@.len()).take(suffix@.len() as int) =~= name@.skip(
                    n - suffix@.len(),
                ));
            }
        }
        let ghost before = r@;
        if keep {
            let s = Sibling { rfilename: to_string(siblings[i].rfilename.as_str()), size: siblings[i].size };
            r.push(s);
            proof {
                assert(r@.map_values(|s: Sibling| sibling_model(s)) =~= before.map_values(
                    |s: Sibling| sibling_model(s),
                ).push(sibling_model(s)));
            }
        }
        proof {
            assert(r@.map_values(|s: Sibling| sibling_model(s)) =~= gguf_only(all.take(i + 1)));
        }
        i = i + 1;
    }
    proof {
        assert(all.take(siblings@.len() as int) =~= all);
    }
    r
}

/// The last `/`-separated segment of a URL, when it is not empty: the name a
/// download is saved under.
pub open spec fn spec_url_filename(url: Seq<char>) -> Option<Seq<char>> {
    let k = last_slash(url);
    let name = url.skip(k + 1);
    if name.len() > 0 {
        Some(name)
    } else {
        None
    }
}

/// Position of the last `/` in `s`, or `-1`.
pub open spec fn last_slash(s: Seq<char>) -> int
    decreases s.len(),
{
    if s.len() == 0 {
        -1
    } else if s.last() == '/' {
        s.len() - 1
    } else {
        last_slash(s.drop_last())
    }
}

/// The file name a download of `url` is saved under.
pub fn url_filename(url: &str) -> (r: Option<String>)
    ensures
        match spec_url_filename(url@) {
            Some(n) => r matches Some(s) && s@ == n,
            None => r is None,
        },
{
    let v = chars_of(url);
    let mut k = v.len();
    proof {
        assert(v@.take(v@.len() as int) =~= v@);
    }
    while k > 0 && v[k - 1] != '/'
        invariant
            k <= v@.len(),
            last_slash(v@.take(k as int)) == last_slash(v@),
        decreases k,
    {
        proof {
            assert(v@.take(k as int).drop_last() =~= v@.take(k - 1));
        }
        k = k - 1;
    }
    proof {
        assert(v@.take(v@.len() as int) =~= v@);
        if k > 0 {
            assert(last_slash(v@.take(k as int)) == k - 1);
        } else {
            assert(v@.take(0) =~= Seq::<char>::empty());
        }
        assert(v@.skip(last_slash(v@) + 1) =~= v@.subrange(k as int, v@.len() as int));
    }
    if k == v.len() {
        None
    } else {
        Some(window_string(&v, k, v.len()))
    }
}

/// What a README request came to: the text, no README (HTTP 404), or a
/// failure status.
pub enum ReadmeStatus {
    Found,
    Missing,
    Failed,
}

/// How `fetch_readme` reads an HTTP status: 404 means there is no README,
/// another non-2xx status is a failure.
pub fn readme_status(status: u16) -> (r: ReadmeStatus)
    ensures
        status == 404 ==> r is Missing,
        status != 404 && 200 <= status < 300 ==> r is Found,
        status != 404 && !(200 <= status < 300) ==> r is Failed,
{
    if status == 404 {
        ReadmeStatus::Missing
    } else if 200 <= status && status < 300 {
        ReadmeStatus::Found
    } else {
        ReadmeStatus::Failed
    }
}

// ── Laws ─────────────────────────────────────────────────────────────────────

proof fn lemma_index_of_at(s: Seq<char>, c: char, k: int)
    requires
        -1 <= k <= s.len(),
        forall|j: int| 0 <= j < s.len() && j != k ==> s[j] != c,
        0 <= k < s.len() ==> s[k] == c,
    ensures
        index_of(s, c) == (if 0 <= k < s.len() { k } else { -1 }),
{
    let p = seq![c];
    assert forall|j: int| 0 <= j <= s.len() implies (#[trigger] crate::chars::starts_with(s.skip(j), p))
        == (j < s.len() && s[j] == c) by {
        if j < s.len() {
            assert(s.skip(j).take(1) =~= seq![s[j]]);
            if crate::chars::starts_with(s.skip(j), p) {
                assert(s.skip(j).take(1)[0] == p[0]);
            }
            if s[j] == c {
                assert(s.skip(j).take(1) =~= p);
            }
        } else {
            assert(s.skip(j).len() == 0);
        }
    }
    if 0 <= k < s.len() {
        lemma_find_at(s, p, k);
    } else {
        lemma_find_at(s, p, s.len() as int);
    }
}

/// Law: the `owner/repo` text of an identifier parses back to it, when
/// neither part is empty or holds a `/`.
pub proof fn law_repo_id_roundtrip(owner: Seq<char>, repo: Seq<char>)
    requires
        owner.len() > 0,
        repo.len() > 0,
        !owner.contains('/'),
        !repo.contains('/'),
    ensures
        spec_parse_repo(owner + "/"@ + repo) == Ok::<(Seq<char>, Seq<char>), RepoIdError>(
            (owner, repo),
        ),
{
    reveal_strlit("/");
    reveal_strlit("https://");
    reveal_strlit("http://");
    let id = owner + "/"@ + repo;
    let k = owner.len() as int;
    assert(id[k] == '/');
    assert forall|j: int| 0 <= j < id.len() && j != k implies id[j] != '/' by {
        if j < k {
            assert(id[j] == owner[j]);
            assert(owner.contains(owner[j]));
        } else {
            assert(id[j] == repo[j - k - 1]);
            assert(repo.contains(repo[j - k - 1]));
        }
    }
    assert(id.last() != '/') by {
        assert(id.last() == repo[repo.len() - 1]);
        assert(repo.contains(repo[repo.len() - 1]));
    }
    assert(trim_end_by(id, is_slash()) == id);
    if crate::chars::starts_with(id, "https://"@) {
        assert(id.take(8)[6] == '/' && id.take(8)[7] == '/');
    }
    if crate::chars::starts_with(id, "http://"@) {
        assert(id.take(7)[5] == '/' && id.take(7)[6] == '/');
    }
    assert(repo_path(id) == id);
    lemma_index_of_at(id, '/', k);
    assert(id.take(k) =~= owner);
    assert(id.skip(k + 1) =~= repo);
    assert forall|j: int| 0 <= j < repo.len() implies repo[j] != '/' by {
        assert(repo.contains(repo[j]));
    }
    lemma_index_of_at(repo, '/', -1);
}

} // verus!
