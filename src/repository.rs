//! The desired-repository entity and its total order.
use crate::order::{
    lemma_bytes_lt_asymmetric, lemma_encode_injective, lemma_opt_str_lt_irreflexive,
    lemma_opt_str_lt_total, lemma_opt_str_lt_transitive, lemma_str_lt_irreflexive,
    lemma_str_lt_total, lemma_str_lt_transitive, bytes_lt, opt_str_lt, str_lt,
};
use crate::error::WorkspaceError;
use crate::text::{
    concat, decode_lossy, decode_strict, is_host_form, is_trim_of, join_path, joined,
    to_host_separators, trim,
};
use core::cmp::Ordering;
use vstd::prelude::*;
use vstd::utf8::{decode_utf8, valid_utf8};


verus! {

/// A repository that the workspace should hold a clone of. Its `path` is
/// relative to the workspace root, with `/` between components, and is the
/// identity of the repository in the workspace.
#[derive(Debug, Clone)]
pub struct Repository {
    path: String,
    url: String,
    pub upstream: Option<String>,
    pub branch: Option<String>,
}

/// An external command to run: a program, its arguments, and the directory
/// to run it in.
#[derive(Debug)]
pub struct CommandPlan {
    pub program: String,
    pub args: Vec<String>,
    pub dir: String,
}

/// The outcome of a git operation on one repository.
#[derive(Debug)]
pub struct GitCommandResult {
    pub repo: Repository,
    pub success: bool,
    pub output: String,
    pub error: Option<String>,
}

impl GitCommandResult {
    pub fn is_success(&self) -> (r: bool)
        ensures
            r == self.success,
    {
        self.success
    }
}

/// How to give a repository its `upstream` remote.
#[derive(Debug)]
pub enum UpstreamPlan {
    /// Nothing to run; this is the outcome.
    Done(GitCommandResult),
    /// Remove any `upstream` remote (whatever that gives), then add it.
    Run { remove: CommandPlan, add: CommandPlan },
}

/// What a repository is, as plain values.
pub struct RepositoryView {
    pub path: Seq<char>,
    pub url: Seq<char>,
    pub upstream: Option<Seq<char>>,
    pub branch: Option<Seq<char>>,
}

pub open spec fn opt_view(o: Option<String>) -> Option<Seq<char>> {
    match o {
        Some(s) => Some(s@),
        None => None,
    }
}

impl View for Repository {
    type V = RepositoryView;

    closed spec fn view(&self) -> RepositoryView {
        RepositoryView {
            path: self.path@,
            url: self.url@,
            upstream: opt_view(self.upstream),
            branch: opt_view(self.branch),
        }
    }
}

/// The order of repositories: by path, then url, then upstream, then branch.
pub open spec fn repo_lt(a: RepositoryView, b: RepositoryView) -> bool {
    ||| str_lt(a.path, b.path)
    ||| a.path == b.path && str_lt(a.url, b.url)
    ||| a.path == b.path && a.url == b.url && opt_str_lt(a.upstream, b.upstream)
    ||| a.path == b.path && a.url == b.url && a.upstream == b.upstream && opt_str_lt(
        a.branch,
        b.branch,
    )
}

pub proof fn lemma_repo_lt_irreflexive(a: RepositoryView)
    ensures
        !repo_lt(a, a),
{
    lemma_str_lt_irreflexive(a.path);
    lemma_str_lt_irreflexive(a.url);
    lemma_opt_str_lt_irreflexive(a.upstream);
    lemma_opt_str_lt_irreflexive(a.branch);
}

pub proof fn lemma_repo_lt_transitive(a: RepositoryView, b: RepositoryView, c: RepositoryView)
    requires
        repo_lt(a, b),
        repo_lt(b, c),
    ensures
        repo_lt(a, c),
{
    if str_lt(a.path, b.path) && str_lt(b.path, c.path) {
        lemma_str_lt_transitive(a.path, b.path, c.path);
    }
    if a.path == b.path && b.path == c.path {
        if str_lt(a.url, b.url) && str_lt(b.url, c.url) {
            lemma_str_lt_transitive(a.url, b.url, c.url);
        }
        if a.url == b.url && b.url == c.url {
            if opt_str_lt(a.upstream, b.upstream) && opt_str_lt(b.upstream, c.upstream) {
                lemma_opt_str_lt_transitive(a.upstream, b.upstream, c.upstream);
            }
            if a.upstream == b.upstream && b.upstream == c.upstream && opt_str_lt(
                a.branch,
                b.branch,
            ) && opt_str_lt(b.branch, c.branch) {
                lemma_opt_str_lt_transitive(a.branch, b.branch, c.branch);
            }
        }
    }
}

pub proof fn lemma_repo_lt_total(a: RepositoryView, b: RepositoryView)
    ensures
        a == b || repo_lt(a, b) || repo_lt(b, a),
{
    lemma_str_lt_total(a.path, b.path);
    lemma_str_lt_total(a.url, b.url);
    lemma_opt_str_lt_total(a.upstream, b.upstream);
    lemma_opt_str_lt_total(a.branch, b.branch);
}

pub proof fn lemma_repo_lt_asymmetric(a: RepositoryView, b: RepositoryView)
    requires
        repo_lt(a, b),
    ensures
        !repo_lt(b, a),
{
    if repo_lt(b, a) {
        lemma_repo_lt_transitive(a, b, a);
        lemma_repo_lt_irreflexive(a);
    }
}

proof fn lemma_bytes_lt_common_prefix(a: Seq<u8>, b: Seq<u8>, i: int)
    requires
        0 <= i <= a.len(),
        i <= b.len(),
        a.subrange(0, i) == b.subrange(0, i),
    ensures
        bytes_lt(a, b) == bytes_lt(a.subrange(i, a.len() as int), b.subrange(i, b.len() as int)),
    decreases i,
{
    if i == 0 {
        assert(a.subrange(0, a.len() as int) =~= a);
        assert(b.subrange(0, b.len() as int) =~= b);
    } else {
        assert(a[0] == a.subrange(0, i)[0]);
        assert(b[0] == b.subrange(0, i)[0]);
        let a1 = a.drop_first();
        let b1 = b.drop_first();
        assert(a1.subrange(0, i - 1) =~= a.subrange(0, i).drop_first());
        assert(b1.subrange(0, i - 1) =~= b.subrange(0, i).drop_first());
        lemma_bytes_lt_common_prefix(a1, b1, i - 1);
        assert(a1.subrange(i - 1, a1.len() as int) =~= a.subrange(i, a.len() as int));
        assert(b1.subrange(i - 1, b1.len() as int) =~= b.subrange(i, b.len() as int));
    }
}

/// Compares two strings byte by byte, as `str`'s own order does.
pub fn compare_str(a: &String, b: &String) -> (r: Ordering)
    ensures
        (r == Ordering::Less) == str_lt(a@, b@),
        (r == Ordering::Equal) == (a@ == b@),
        (r == Ordering::Greater) == str_lt(b@, a@),
{
    let x = a.as_str().as_bytes();
    let y = b.as_str().as_bytes();
    proof {
        lemma_str_lt_total(a@, b@);
        lemma_str_lt_irreflexive(a@);
        if str_lt(a@, b@) {
            lemma_bytes_lt_asymmetric(encode_utf8_of(a@), encode_utf8_of(b@));
        }
    }
    let mut i: usize = 0;
    while i < x.len() && i < y.len()
        invariant
            x@ == encode_utf8_of(a@),
            y@ == encode_utf8_of(b@),
            i <= x@.len(),
            i <= y@.len(),
            x@.subrange(0, i as int) == y@.subrange(0, i as int),
        decreases x.len() - i,
    {
        if x[i] != y[i] {
            proof {
                lemma_bytes_lt_common_prefix(x@, y@, i as int);
                lemma_bytes_lt_common_prefix(y@, x@, i as int);
                let xs = x@.subrange(i as int, x@.len() as int);
                let ys = y@.subrange(i as int, y@.len() as int);
                assert(xs[0] == x@[i as int]);
                assert(ys[0] == y@[i as int]);
                if a@ == b@ {
                    assert(x@ == y@);
                }
            }
            if x[i] < y[i] {
                return Ordering::Less;
            } else {
                return Ordering::Greater;
            }
        }
        proof {
            assert(x@.subrange(0, i + 1) =~= x@.subrange(0, i as int).push(x@[i as int]));
            assert(y@.subrange(0, i + 1) =~= y@.subrange(0, i as int).push(y@[i as int]));
        }
        i = i + 1;
    }
    proof {
        lemma_bytes_lt_common_prefix(x@, y@, i as int);
        lemma_bytes_lt_common_prefix(y@, x@, i as int);
        if x@.len() == y@.len() {
            assert(x@ =~= x@.subrange(0, i as int));
            assert(y@ =~= y@.subrange(0, i as int));
            lemma_encode_injective(a@, b@);
        } else if a@ == b@ {
            assert(false);
        }
    }
    if x.len() == y.len() {
        Ordering::Equal
    } else if i == x.len() {
        Ordering::Less
    } else {
        Ordering::Greater
    }
}

/// The UTF-8 encoding of a string, which `as_bytes` hands out.
pub open spec fn encode_utf8_of(s: Seq<char>) -> Seq<u8> {
    vstd::utf8::encode_utf8(s)
}

/// Compares two optional strings; an absent value comes first.
pub fn compare_opt_str(a: &Option<String>, b: &Option<String>) -> (r: Ordering)
    ensures
        (r == Ordering::Less) == opt_str_lt(opt_view(*a), opt_view(*b)),
        (r == Ordering::Equal) == (opt_view(*a) == opt_view(*b)),
        (r == Ordering::Greater) == opt_str_lt(opt_view(*b), opt_view(*a)),
{
    match (a, b) {
        (None, None) => Ordering::Equal,
        (None, Some(_)) => Ordering::Less,
        (Some(_), None) => Ordering::Greater,
        (Some(x), Some(y)) => compare_str(x, y),
    }
}

/// Compares two repositories field by field, in the order of `repo_lt`.
pub fn compare_repo(a: &Repository, b: &Repository) -> (r: Ordering)
    ensures
        (r == Ordering::Less) == repo_lt(a@, b@),
        (r == Ordering::Equal) == (a@ == b@),
        (r == Ordering::Greater) == repo_lt(b@, a@),
{
    proof {
        lemma_repo_lt_irreflexive(a@);
        lemma_repo_lt_total(a@, b@);
        if repo_lt(a@, b@) {
            lemma_repo_lt_asymmetric(a@, b@);
        }
    }
    match compare_str(&a.path, &b.path) {
        Ordering::Equal => {},
        c => {
            return c;
        },
    }
    match compare_str(&a.url, &b.url) {
        Ordering::Equal => {},
        c => {
            return c;
        },
    }
    match compare_opt_str(&a.upstream, &b.upstream) {
        Ordering::Equal => {},
        c => {
            return c;
        },
    }
    compare_opt_str(&a.branch, &b.branch)
}

pub fn copy_opt_str(o: &Option<String>) -> (r: Option<String>)
    ensures
        opt_view(r) == opt_view(*o),
{
    match o {
        Some(s) => Some(s.clone()),
        None => None,
    }
}

impl Repository {
    /// A repository at `path`, relative to the workspace root, cloned from
    /// `url`. The `/` between components of `path` become the host's path
    /// separator.
    pub fn new(path: String, url: String, branch: Option<String>, upstream: Option<String>) -> (r:
        Repository)
        ensures
            is_host_form(r@.path, path@),
            r@.url == url@,
            r@.branch == opt_view(branch),
            r@.upstream == opt_view(upstream),
    {
        Repository { path: to_host_separators(path.as_str()), url, branch, upstream }
    }

    /// The repository's path in the workspace, which names it.
    pub fn name(&self) -> (r: &String)
        ensures
            r@ == self@.path,
    {
        &self.path
    }

    pub fn url(&self) -> (r: &String)
        ensures
            r@ == self@.url,
    {
        &self.url
    }

    /// A copy with the same fields.
    pub fn duplicate(&self) -> (r: Repository)
        ensures
            r@ == self@,
    {
        Repository {
            path: self.path.clone(),
            url: self.url.clone(),
            upstream: copy_opt_str(&self.upstream),
            branch: copy_opt_str(&self.branch),
        }
    }
}

/// Relies on `Path::canonicalize`: the absolute form of an existing path,
/// links resolved; `None` when it cannot be resolved or is not UTF-8. What it
/// returns depends on the disk, so nothing more is promised.
#[verifier::external_body]
fn canonical_path(p: &str) -> (r: Option<String>) {
    std::path::Path::new(p).canonicalize().ok().and_then(|b| b.to_str().map(|s| s.to_string()))
}

/// Whether a clone is there, from what the disk said of it: `None` when its
/// path did not resolve, else whether `.git` below the resolved path is a
/// directory. Only a resolved path with a `.git` directory counts.
pub fn present(git_dir: Option<bool>) -> (r: bool)
    ensures
        r == (git_dir == Some(true)),
{
    match git_dir {
        Some(is_dir) => is_dir,
        None => false,
    }
}

/// The views of a list of strings.
pub open spec fn string_views(v: Seq<String>) -> Seq<Seq<char>> {
    v.map_values(|s: String| s@)
}

fn plan(program: &str, args: Vec<String>, dir: String) -> (r: CommandPlan)
    ensures
        r.program@ == program@,
        r.args@ == args@,
        r.dir@ == dir@,
{
    CommandPlan { program: program.to_string(), args, dir }
}

impl Repository {
    /// Where the clone of this repository lives below `root`.
    pub fn local_path(&self, root: &str) -> (r: String)
        ensures
            r@ == joined(root@, self@.path),
    {
        join_path(root, self.path.as_str())
    }

    /// The absolute, resolved path of the clone; an error naming the path
    /// when it cannot be resolved (it does not exist, for one).
    pub fn get_path(&self, root: &str) -> (r: Result<String, WorkspaceError>)
        ensures
            r is Err ==> (r matches Err(WorkspaceError::InvalidPath(m)) && m@ == "Cannot resolve "@
                + joined(root@, self@.path)),
    {
        let joined_path = self.local_path(root);
        match canonical_path(joined_path.as_str()) {
            Some(p) => Ok(p),
            None => Err(WorkspaceError::InvalidPath(concat("Cannot resolve ", joined_path.as_str()))),
        }
    }

    /// Clones the repository, with its submodules, to its place below
    /// `root`; runs in `root`.
    pub fn clone(&self, root: &str) -> (r: CommandPlan)
        ensures
            r.program@ == "git"@,
            r.dir@ == root@,
            string_views(r.args@) == seq![
                "clone"@,
                "--recurse-submodules"@,
                "--progress"@,
                self@.url,
                joined(root@, self@.path),
            ],
    {
        let args = vec![
            "clone".to_string(),
            "--recurse-submodules".to_string(),
            "--progress".to_string(),
            self.url.clone(),
            self.local_path(root),
        ];
        let r = plan("git", args, root.to_string());
        proof {
            assert(string_views(r.args@) =~= seq![
                "clone"@,
                "--recurse-submodules"@,
                "--progress"@,
                self@.url,
                joined(root@, self@.path),
            ]);
        }
        r
    }

    /// Pulls into the clone: from the `upstream` remote's primary branch
    /// when both are configured, else from the default remote.
    pub fn pull(&self, root: &str) -> (r: CommandPlan)
        ensures
            r.program@ == "git"@,
            r.dir@ == joined(root@, self@.path),
            match (self@.upstream, self@.branch) {
                (Some(_), Some(b)) => string_views(r.args@) == seq!["pull"@, "upstream"@, b],
                _ => string_views(r.args@) == seq!["pull"@],
            },
    {
        let dir = self.local_path(root);
        match (&self.upstream, &self.branch) {
            (Some(_), Some(branch)) => {
                let args = vec!["pull".to_string(), "upstream".to_string(), branch.clone()];
                let r = plan("git", args, dir);
                proof {
                    assert(string_views(r.args@) =~= seq!["pull"@, "upstream"@, branch@]);
                }
                r
            },
            _ => {
                let args = vec!["pull".to_string()];
                let r = plan("git", args, dir);
                proof {
                    assert(string_views(r.args@) =~= seq!["pull"@]);
                }
                r
            },
        }
    }

    /// Runs `cmd` with `args` inside the clone.
    pub fn execute_cmd(&self, root: &str, cmd: &str, args: Vec<String>) -> (r: CommandPlan)
        ensures
            r.program@ == cmd@,
            r.args@ == args@,
            r.dir@ == joined(root@, self@.path),
    {
        let dir = self.local_path(root);
        plan(cmd, args, dir)
    }

    /// The outcome of a command that ran in the clone: on success its
    /// standard output, on failure its standard error; either one decoded
    /// lossily and trimmed.
    pub fn command_result(&self, success: bool, stdout: &[u8], stderr: &[u8]) -> (r:
        GitCommandResult)
        ensures
            r.repo@ == self@,
            r.success == success,
            success ==> r.error is None && is_trim_of(r.output@, crate::text::lossy_text(stdout@)),
            !success ==> r.output@.len() == 0 && r.error is Some && is_trim_of(
                r.error->0@,
                crate::text::lossy_text(stderr@),
            ),
    {
        if success {
            let text = decode_lossy(stdout);
            GitCommandResult {
                repo: self.duplicate(),
                success: true,
                output: trim(text.as_str()),
                error: None,
            }
        } else {
            GitCommandResult {
                repo: self.duplicate(),
                success: false,
                output: String::new(),
                error: Some(trim(decode_lossy(stderr).as_str())),
            }
        }
    }

    /// How to set the `upstream` remote of the clone, when one is configured.
    pub fn set_upstream(&self, root: &str) -> (r: UpstreamPlan)
        ensures
            match self@.upstream {
                None => r matches UpstreamPlan::Done(res) && res.repo@ == self@ && res.success
                    && res.output@ == "No upstream configured"@ && res.error is None,
                Some(u) => r matches UpstreamPlan::Run { remove, add } && remove.program@
                    == "git"@ && string_views(remove.args@) == seq![
                    "-C"@,
                    joined(root@, self@.path),
                    "remote"@,
                    "rm"@,
                    "upstream"@,
                ] && add.program@ == "git"@ && string_views(add.args@) == seq![
                    "-C"@,
                    joined(root@, self@.path),
                    "remote"@,
                    "add"@,
                    "upstream"@,
                    u,
                ] && remove.dir@ == root@ && add.dir@ == root@,
            },
    {
        match &self.upstream {
            None => UpstreamPlan::Done(
                GitCommandResult {
                    repo: self.duplicate(),
                    success: true,
                    output: "No upstream configured".to_string(),
                    error: None,
                },
            ),
            Some(upstream) => {
                let remove_args = vec![
                    "-C".to_string(),
                    self.local_path(root),
                    "remote".to_string(),
                    "rm".to_string(),
                    "upstream".to_string(),
                ];
                let add_args = vec![
                    "-C".to_string(),
                    self.local_path(root),
                    "remote".to_string(),
                    "add".to_string(),
                    "upstream".to_string(),
                    upstream.clone(),
                ];
                let remove = plan("git", remove_args, root.to_string());
                let add = plan("git", add_args, root.to_string());
                proof {
                    assert(string_views(remove.args@) =~= seq![
                        "-C"@,
                        joined(root@, self@.path),
                        "remote"@,
                        "rm"@,
                        "upstream"@,
                    ]);
                    assert(string_views(add.args@) =~= seq![
                        "-C"@,
                        joined(root@, self@.path),
                        "remote"@,
                        "add"@,
                        "upstream"@,
                        upstream@,
                    ]);
                }
                UpstreamPlan::Run { remove, add }
            },
        }
    }

    /// The outcome of adding the `upstream` remote: success, or a failure
    /// that quotes git's trimmed standard error. Standard error that is not
    /// UTF-8 is an error of its own.
    pub fn upstream_result(&self, added: bool, stderr: &[u8]) -> (r: Result<
        GitCommandResult,
        WorkspaceError,
    >)
        ensures
            added ==> (r matches Ok(res) && res.repo@ == self@ && res.success && res.output@
                == "Upstream configured successfully"@ && res.error is None),
            !added && !valid_utf8(stderr@) ==> r matches Err(WorkspaceError::CommandFailed(_)),
            !added && valid_utf8(stderr@) ==> (r matches Ok(res) && res.repo@ == self@
                && !res.success && res.output@.len() == 0 && res.error is Some && exists|t: Seq<
                char,
            >|
                is_trim_of(t, decode_utf8(stderr@)) && res.error->0@ == "Failed to set upstream: "@
                    + t),
    {
        if added {
            return Ok(
                GitCommandResult {
                    repo: self.duplicate(),
                    success: true,
                    output: "Upstream configured successfully".to_string(),
                    error: None,
                },
            );
        }
        match decode_strict(stderr) {
            None => Err(WorkspaceError::CommandFailed("Error decoding git output".to_string())),
            Some(text) => {
                let t = trim(text.as_str());
                let message = concat("Failed to set upstream: ", t.as_str());
                Ok(
                    GitCommandResult {
                        repo: self.duplicate(),
                        success: false,
                        output: String::new(),
                        error: Some(message),
                    },
                )
            },
        }
    }

    /// The reference to check out to switch the clone to its primary
    /// branch, when one is configured.
    pub fn switch_to_primary_branch(&self) -> (r: Option<String>)
        ensures
            match self@.branch {
                None => r is None,
                Some(b) => r is Some && r->0@ == "refs/heads/"@ + b,
            },
    {
        match &self.branch {
            None => None,
            Some(b) => Some(concat("refs/heads/", b.as_str())),
        }
    }

    /// The outcome of switching to the primary branch: nothing to do
    /// without one; refused when the working tree has changes; else done.
    pub fn switch_result(&self, dirty: bool) -> (r: GitCommandResult)
        ensures
            r.repo@ == self@,
            match self@.branch {
                None => r.success && r.output@ == "No primary branch configured"@ && r.error is None,
                Some(b) => if dirty {
                    !r.success && r.output@.len() == 0 && r.error is Some && r.error->0@
                        == "Repository is dirty, cannot switch to branch "@ + b
                } else {
                    r.success && r.output@ == "Switched to branch "@ + b && r.error is None
                },
            },
    {
        match &self.branch {
            None => GitCommandResult {
                repo: self.duplicate(),
                success: true,
                output: "No primary branch configured".to_string(),
                error: None,
            },
            Some(b) => {
                if dirty {
                    GitCommandResult {
                        repo: self.duplicate(),
                        success: false,
                        output: String::new(),
                        error: Some(concat("Repository is dirty, cannot switch to branch ", b.as_str())),
                    }
                } else {
                    GitCommandResult {
                        repo: self.duplicate(),
                        success: true,
                        output: concat("Switched to branch ", b.as_str()),
                        error: None,
                    }
                }
            },
        }
    }
}

} // verus!
