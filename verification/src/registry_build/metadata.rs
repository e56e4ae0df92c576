//! What a build of the language table pins, and the checks it must pass.
use vstd::prelude::*;
use vstd::string::StringSliceAdditionalSpecFns;
use vstd::utf8::*;

use crate::registry::util::{is_hex_digit, is_sha};
use crate::text::chars_of;

verus! {

broadcast use vstd::seq_lib::group_seq_properties;

/// Everything a build pins.
pub struct Metadata {
    /// Notes kept in the file for its readers.
    pub comment: Vec<String>,
    pub nvim_treesitter: NvimTreesitter,
    pub tree_sitter: TreeSitter,
}

/// Where the queries and the parser table come from.
pub struct NvimTreesitter {
    /// The repository the queries and the parser table come from.
    pub repository: String,
    /// The commit this build is locked to.
    ///
    /// Always a full SHA: it is used as a cache key and as a
    /// content-addressed fetch path, and both need to be immutable.
    pub revision: String,
    pub paths: Paths,
}

/// Files and directories inside the nvim-treesitter repository.
pub struct Paths {
    /// The parser table, within the nvim-treesitter repository.
    pub parsers: String,
    /// The filetype aliases, within the nvim-treesitter repository.
    pub filetypes: String,
    /// The directory holding one query directory per language.
    pub queries: String,
}

/// Where the tree-sitter CLI comes from.
pub struct TreeSitter {
    /// The repository the CLI is released from.
    pub repository: String,
    /// The CLI release this build is locked to, taken from the version of the
    /// `tree-sitter` runtime the workspace depends on.
    pub cli_version: String,
}

/// What `{:?}` writes for a string: the string quoted, with escapes.
pub uninterp spec fn debug_text(s: Seq<char>) -> Seq<char>;

/// A string as `{:?}` writes it.
///
/// Trusted: `format!("{:?}", s)`, the standard library's `Debug` for `str`,
/// which depends on the string alone.
#[verifier::external_body]
pub(crate) fn debug_quote(s: &str) -> (r: String)
    ensures
        r@ == debug_text(s@),
{
    format!("{:?}", s)
}

/// Whether a character is an ASCII digit.
pub open spec fn is_digit(c: char) -> bool {
    '0' <= c <= '9'
}

/// How many dots the first `n` characters of `v` hold.
pub open spec fn dots(v: Seq<char>, n: int) -> nat
    decreases n,
{
    if n <= 0 {
        0
    } else {
        dots(v, n - 1) + if v[n - 1] == '.' {
            1nat
        } else {
            0nat
        }
    }
}

/// Whether `v` is three dot-separated runs of digits, `x.y.z`, none empty.
pub open spec fn is_version(v: Seq<char>) -> bool {
    &&& v.len() > 0
    &&& v[0] != '.'
    &&& v[v.len() - 1] != '.'
    &&& dots(v, v.len() as int) == 2
    &&& forall|i: int| 0 <= i < v.len() ==> is_digit(#[trigger] v[i]) || v[i] == '.'
    &&& forall|i: int| 0 <= i < v.len() - 1 ==> !(#[trigger] v[i] == '.' && v[i + 1] == '.')
}

/// The prefix every repository url starts with.
pub open spec fn github_prefix() -> Seq<char> {
    "https://github.com/"@
}

/// Whether `path` is two non-empty parts joined by one `/`.
pub open spec fn is_owner_repo(path: Seq<char>) -> bool {
    exists|i: int|
        0 < i < path.len() - 1 && path[i] == '/' && forall|j: int|
            0 <= j < path.len() && j != i ==> #[trigger] path[j] != '/'
}

/// Whether `s` ends with `.git`.
pub open spec fn ends_with_git(s: Seq<char>) -> bool {
    s.len() >= 4 && s.subrange(s.len() - 4, s.len() as int) == seq!['.', 'g', 'i', 't']
}

/// What checking a repository url gives: nothing if it is
/// `https://github.com/<owner>/<repo>`, else why not.
pub open spec fn repository_problem(r: Seq<char>) -> Option<Seq<char>> {
    let p = github_prefix();
    if !(r.len() >= p.len() && r.take(p.len() as int) == p) {
        Some(debug_text(r) + " is not an https github.com url"@)
    } else if !is_owner_repo(r.skip(p.len() as int)) {
        Some(debug_text(r) + " should be https://github.com/<owner>/<repo>"@)
    } else if ends_with_git(r) {
        Some(debug_text(r) + " should not end in .git"@)
    } else {
        None
    }
}

/// Whether one of the `/`-separated parts of `path` is `..`.
pub open spec fn has_parent_part(path: Seq<char>) -> bool {
    exists|i: int|
        0 <= i && i + 2 <= path.len() && #[trigger] path[i] == '.' && path[i + 1] == '.' && (i == 0
            || path[i - 1] == '/') && (i + 2 == path.len() || path[i + 2] == '/')
}

/// Whether `path` is relative and stays inside the repository.
pub open spec fn is_inside(path: Seq<char>) -> bool {
    !(path.len() > 0 && path[0] == '/') && !has_parent_part(path)
}

/// What checking the metadata gives: nothing if it is valid, else the first
/// problem found.
pub open spec fn metadata_problem(m: Metadata) -> Option<Seq<char>> {
    let revision = m.nvim_treesitter.revision@;
    let version = m.tree_sitter.cli_version@;
    let paths = m.nvim_treesitter.paths;
    if !is_sha(encode_utf8(revision)) {
        Some(
            "nvim_treesitter.revision must be a full 40-character commit SHA, got "@ + debug_text(
                revision,
            ) + "."@,
        )
    } else if !is_version(version) {
        Some("tree_sitter.cli_version must be `x.y.z`, got "@ + debug_text(version))
    } else if repository_problem(m.nvim_treesitter.repository@) is Some {
        repository_problem(m.nvim_treesitter.repository@)
    } else if repository_problem(m.tree_sitter.repository@) is Some {
        repository_problem(m.tree_sitter.repository@)
    } else if !is_inside(paths.parsers@) {
        Some(outside_path(paths.parsers@))
    } else if !is_inside(paths.filetypes@) {
        Some(outside_path(paths.filetypes@))
    } else if !is_inside(paths.queries@) {
        Some(outside_path(paths.queries@))
    } else {
        None
    }
}

/// The error for a path that leaves the repository.
pub open spec fn outside_path(path: Seq<char>) -> Seq<char> {
    "paths must be relative and stay inside the repository, got "@ + debug_text(path)
}

/// Metadata that passes its checks names nvim-treesitter's repository in a
/// form the raw-file host can be derived from, so deriving it cannot fail.
pub proof fn lemma_valid_metadata_has_raw_host(m: Metadata)
    requires
        metadata_problem(m) is None,
    ensures
        ({
            let r = m.nvim_treesitter.repository@;
            let p = github_prefix();
            r.len() >= p.len() && r.take(p.len() as int) == p
        }),
{
}

/// Whether `s` is a full commit SHA.
fn is_full_sha(s: &str) -> (r: bool)
    ensures
        r == is_sha(s.spec_bytes()),
{
    let b = s.as_bytes();
    if b.len() != 40 {
        return false;
    }
    let mut i: usize = 0;
    while i < b.len()
        invariant
            b@ == s.spec_bytes(),
            b@.len() == 40,
            i <= 40,
            forall|k: int| 0 <= k < i ==> is_hex_digit(#[trigger] b@[k]),
        decreases 40 - i,
    {
        let c = b[i];
        if !((0x30 <= c && c <= 0x39) || (0x61 <= c && c <= 0x66) || (0x41 <= c && c <= 0x46)) {
            return false;
        }
        i += 1;
    }
    true
}

/// Whether `v` is `x.y.z`, three runs of digits.
fn version_ok(v: &str) -> (r: bool)
    ensures
        r == is_version(v@),
{
    let c = chars_of(v);
    let n = c.len();
    if n == 0 || c[0] == '.' || c[n - 1] == '.' {
        return false;
    }
    let mut count: usize = 0;
    let mut i: usize = 0;
    while i < n
        invariant
            n == c@.len(),
            c@ == v@,
            n > 0,
            i <= n,
            count == dots(c@, i as int),
            count <= i,
            forall|k: int| 0 <= k < i ==> is_digit(#[trigger] c@[k]) || c@[k] == '.',
            forall|k: int| 0 <= k < i - 1 ==> !(#[trigger] c@[k] == '.' && c@[k + 1] == '.'),
        decreases n - i,
    {
        let ch = c[i];
        if !(('0' <= ch && ch <= '9') || ch == '.') {
            return false;
        }
        if ch == '.' {
            if i > 0 && c[i - 1] == '.' {
                assert(c@[i - 1] == '.' && c@[(i - 1) + 1] == '.');
                return false;
            }
            count += 1;
        }
        i += 1;
    }
    count == 2
}

/// Whether `s` ends with `.git`.
fn git_suffix(s: &Vec<char>) -> (r: bool)
    ensures
        r == ends_with_git(s@),
{
    let n = s.len();
    if n < 4 {
        return false;
    }
    let r = s[n - 4] == '.' && s[n - 3] == 'g' && s[n - 2] == 'i' && s[n - 1] == 't';
    assert(r ==> s@.subrange(n - 4, n as int) =~= seq!['.', 'g', 'i', 't']);
    proof {
        if ends_with_git(s@) {
            let t = s@.subrange(n - 4, n as int);
            assert(t[0] == s@[n - 4] && t[1] == s@[n - 3] && t[2] == s@[n - 2] && t[3] == s@[n - 1]);
        }
    }
    r
}

/// Repositories are github.com URLs, deliberately narrowly.
///
/// The raw-file host is derived from this, and only works for github.com; a
/// `.git` suffix or a trailing slash would 404 there. A clear error when the
/// table is built beats a confusing one from the download.
pub fn check_repository(repository: &str) -> (r: Result<(), String>)
    ensures
        match repository_problem(repository@) {
            None => r is Ok,
            Some(e) => r is Err && r->Err_0@ == e,
        },
{
    let c = chars_of(repository);
    let prefix = chars_of("https://github.com/");
    proof {
        reveal_strlit("https://github.com/");
    }
    let p = prefix.len();
    let mut has_prefix = c.len() >= p;
    let mut i: usize = 0;
    while has_prefix && i < p
        invariant
            i <= p,
            p == prefix@.len(),
            prefix@ == github_prefix(),
            c@ == repository@,
            has_prefix ==> c@.len() >= p,
            forall|k: int| 0 <= k < i ==> c@[k] == prefix@[k],
            has_prefix || !(c@.len() >= p && c@.take(p as int) == prefix@),
        decreases p - i, if has_prefix { 1int } else { 0int },
    {
        if c[i] != prefix[i] {
            has_prefix = false;
            assert(c@.len() >= p ==> c@.take(p as int)[i as int] != prefix@[i as int]);
        } else {
            i += 1;
        }
    }
    if !has_prefix {
        let mut e = debug_quote(repository);
        e.append(" is not an https github.com url");
        return Err(e);
    }
    assert(c@.take(p as int) =~= prefix@);
    let ghost path = c@.skip(p as int);
    let n = c.len();
    let mut slashes: usize = 0;
    let mut at: usize = 0;
    let mut k = p;
    while k < n
        invariant
            p <= k <= n,
            n == c@.len(),
            path == c@.skip(p as int),
            slashes <= k - p,
            slashes == 0 ==> forall|j: int| p <= j < k ==> c@[j] != '/',
            slashes >= 1 ==> p <= at < k && c@[at as int] == '/',
            slashes == 1 ==> forall|j: int| p <= j < k && j != at ==> c@[j] != '/',
            slashes >= 2 ==> exists|j: int| p <= j < k && j != at && c@[j] == '/',
        decreases n - k,
    {
        if c[k] == '/' {
            if slashes == 0 {
                at = k;
            } else if slashes == 1 {
                assert(c@[k as int] == '/');
            }
            if slashes < 2 {
                slashes += 1;
            }
        }
        k += 1;
    }
    let shaped = slashes == 1 && at > p && at < n - 1;
    proof {
        if shaped {
            assert(is_owner_repo(path)) by {
                let i = at - p;
                assert(path[i] == '/');
                assert forall|j: int| 0 <= j < path.len() && j != i implies #[trigger] path[j]
                    != '/' by {
                    assert(path[j] == c@[j + p]);
                }
            }
        } else {
            assert(!is_owner_repo(path)) by {
                if is_owner_repo(path) {
                    let i = choose|i: int|
                        0 < i < path.len() - 1 && path[i] == '/' && forall|j: int|
                            0 <= j < path.len() && j != i ==> #[trigger] path[j] != '/';
                    assert(path[i] == c@[i + p]);
                    if slashes == 0 {
                        assert(c@[i + p] != '/');
                    } else if slashes == 1 {
                        assert(path[at - p] == c@[at as int]);
                        assert(at - p == i);
                    } else {
                        let j = choose|j: int| p <= j < n && j != at && c@[j] == '/';
                        assert(path[j - p] == c@[j]);
                        assert(path[at - p] == c@[at as int]);
                    }
                }
            }
        }
    }
    if !shaped {
        let mut e = debug_quote(repository);
        e.append(" should be https://github.com/<owner>/<repo>");
        return Err(e);
    }
    if git_suffix(&c) {
        let mut e = debug_quote(repository);
        e.append(" should not end in .git");
        return Err(e);
    }
    Ok(())
}

/// Whether `path` is relative and stays inside the repository.
fn inside(path: &str) -> (r: bool)
    ensures
        r == is_inside(path@),
{
    let c = chars_of(path);
    let n = c.len();
    if n > 0 && c[0] == '/' {
        return false;
    }
    let mut i: usize = 0;
    while n >= 2 && i <= n - 2
        invariant
            n == c@.len(),
            c@ == path@,
            i <= n,
            forall|j: int|
                0 <= j < i && j + 2 <= n ==> !(#[trigger] c@[j] == '.' && c@[j + 1] == '.' && (j
                    == 0 || c@[j - 1] == '/') && (j + 2 == n || c@[j + 2] == '/')),
        decreases n - i,
    {
        if c[i] == '.' && c[i + 1] == '.' && (i == 0 || c[i - 1] == '/') && (i + 2 == n || c[i
            + 2] == '/') {
            assert(has_parent_part(path@)) by {
                assert(c@[i as int] == '.');
            }
            return false;
        }
        i += 1;
    }
    assert(!has_parent_part(path@)) by {
        if has_parent_part(path@) {
            let j = choose|j: int|
                0 <= j && j + 2 <= path@.len() && #[trigger] path@[j] == '.' && path@[j + 1] == '.'
                    && (j == 0 || path@[j - 1] == '/') && (j + 2 == path@.len() || path@[j + 2]
                    == '/');
            assert(c@[j] == '.');
        }
    }
    true
}

/// The error for a path that leaves the repository.
fn outside_error(path: &str) -> (r: String)
    ensures
        r@ == outside_path(path@),
{
    let mut e = String::from_str("paths must be relative and stay inside the repository, got ");
    e.append(debug_quote(path).as_str());
    e
}

impl Metadata {
    /// Check what is pinned: a full commit SHA, a three-part CLI version,
    /// github.com repositories, and paths that stay inside the repository.
    pub fn validate(&self) -> (r: Result<(), String>)
        ensures
            match metadata_problem(*self) {
                None => r is Ok,
                Some(e) => r is Err && r->Err_0@ == e,
            },
    {
        let revision = self.nvim_treesitter.revision.as_str();
        if !is_full_sha(revision) {
            let mut e = String::from_str(
                "nvim_treesitter.revision must be a full 40-character commit SHA, got ",
            );
            e.append(debug_quote(revision).as_str());
            e.append(".");
            return Err(e);
        }
        let version = self.tree_sitter.cli_version.as_str();
        if !version_ok(version) {
            let mut e = String::from_str("tree_sitter.cli_version must be `x.y.z`, got ");
            e.append(debug_quote(version).as_str());
            return Err(e);
        }
        match check_repository(self.nvim_treesitter.repository.as_str()) {
            Ok(()) => {},
            Err(e) => {
                return Err(e);
            },
        }
        match check_repository(self.tree_sitter.repository.as_str()) {
            Ok(()) => {},
            Err(e) => {
                return Err(e);
            },
        }
        let paths = &self.nvim_treesitter.paths;
        if !inside(paths.parsers.as_str()) {
            return Err(outside_error(paths.parsers.as_str()));
        }
        if !inside(paths.filetypes.as_str()) {
            return Err(outside_error(paths.filetypes.as_str()));
        }
        if !inside(paths.queries.as_str()) {
            return Err(outside_error(paths.queries.as_str()));
        }
        Ok(())
    }
}

/// The raw-file host for a github.com repository, if it is one.
pub fn raw_host(repository: &str) -> (r: Option<String>)
    ensures
        ({
            let p = github_prefix();
            if repository@.len() >= p.len() && repository@.take(p.len() as int) == p {
                r is Some && r->0@ == "https://raw.githubusercontent.com/"@ + repository@.skip(
                    p.len() as int,
                )
            } else {
                r is None
            }
        }),
{
    let c = chars_of(repository);
    let prefix = chars_of("https://github.com/");
    proof {
        reveal_strlit("https://github.com/");
    }
    let p = prefix.len();
    if c.len() < p {
        return None;
    }
    let mut i: usize = 0;
    while i < p
        invariant
            i <= p,
            p == prefix@.len(),
            prefix@ == github_prefix(),
            c@ == repository@,
            c@.len() >= p,
            forall|k: int| 0 <= k < i ==> c@[k] == prefix@[k],
        decreases p - i,
    {
        if c[i] != prefix[i] {
            assert(c@.take(p as int)[i as int] != prefix@[i as int]);
            return None;
        }
        i += 1;
    }
    assert(c@.take(p as int) =~= prefix@);
    let mut host = String::from_str("https://raw.githubusercontent.com/");
    let rest = crate::text::string_of(c.as_slice(), p, c.len());
    host.append(rest.as_str());
    Some(host)
}

} // verus!
