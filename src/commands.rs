//! The decisions of the workspace commands, on values that the caller has
//! already gathered from the network and the disk.
use crate::lockfile::{
    is_sorted_dedup_of, lemma_strictly_sorted_unique, sorted_unique, views,
};
use crate::repository::{string_views, Repository, RepositoryView};
use vstd::prelude::*;

verus! {

/// What one remote source answered when asked for its repositories.
#[derive(Debug)]
pub struct SourceOutcome {
    pub provider: String,
    pub fetched: Result<Vec<Repository>, String>,
}

/// The report of one source in a lock run.
#[derive(Debug)]
pub struct LockResult {
    pub provider: String,
    pub repos: Option<Vec<Repository>>,
    pub success: bool,
    pub error: Option<String>,
}

impl LockResult {
    pub fn is_success(&self) -> (r: bool)
        ensures
            r == self.success,
    {
        self.success
    }
}

/// The outcome of a lock run: one report per source, in the order of the
/// sources, and the new content of the lockfile.
#[derive(Debug)]
pub struct LockOutcome {
    pub results: Vec<LockResult>,
    pub repositories: Vec<Repository>,
}

/// The repositories that a source fetched; none where it failed.
pub open spec fn fetched_by(s: SourceOutcome) -> Seq<RepositoryView> {
    match s.fetched {
        Ok(v) => views(v@),
        Err(_) => Seq::empty(),
    }
}

/// All the repositories fetched by a list of sources, in order.
pub open spec fn all_fetched(s: Seq<SourceOutcome>) -> Seq<RepositoryView>
    decreases s.len(),
{
    if s.len() == 0 {
        Seq::empty()
    } else {
        all_fetched(s.drop_last()) + fetched_by(s.last())
    }
}

/// The report that a lock run gives of one source.
pub open spec fn reports(r: LockResult, s: SourceOutcome) -> bool {
    &&& r.provider@ == s.provider@
    &&& r.success == s.fetched is Ok
    &&& match s.fetched {
        Ok(v) => r.repos is Some && views(r.repos->0@) == views(v@) && r.error is None,
        Err(e) => r.repos is None && r.error == Some(e),
    }
}

fn copy_repos(v: &Vec<Repository>) -> (r: Vec<Repository>)
    ensures
        views(r@) == views(v@),
{
    let mut out: Vec<Repository> = Vec::new();
    let mut i: usize = 0;
    while i < v.len()
        invariant
            i <= v@.len(),
            out@.len() == i,
            views(out@) == views(v@).subrange(0, i as int),
        decreases v.len() - i,
    {
        let ghost old_out = out@;
        out.push(v[i].duplicate());
        proof {
            assert(out@.len() == i + 1);
            assert(views(out@).len() == i + 1);
            assert(views(v@).len() == v@.len());
            assert(views(out@)[i as int] == views(v@)[i as int]);
            assert(views(out@) =~= views(v@).subrange(0, i + 1));
        }
        i = i + 1;
    }
    assert(views(v@).subrange(0, v@.len() as int) =~= views(v@));
    out
}

/// Gathers the repositories of every source that answered into the new
/// lockfile content: sorted, without repeats, and nothing kept from an
/// earlier lockfile. A failed source is reported and does not stop the
/// others; when every source fails, the new content is empty.
pub fn lock(sources: &Vec<SourceOutcome>) -> (r: LockOutcome)
    ensures
        r.results@.len() == sources@.len(),
        forall|i: int| 0 <= i < sources@.len() ==> reports(#[trigger] r.results@[i], sources@[i]),
        is_sorted_dedup_of(views(r.repositories@), all_fetched(sources@)),
        (forall|i: int| 0 <= i < sources@.len() ==> (#[trigger] sources@[i]).fetched is Err)
            ==> r.repositories@.len() == 0,
{
    let mut results: Vec<LockResult> = Vec::new();
    let mut all: Vec<Repository> = Vec::new();
    let mut i: usize = 0;
    while i < sources.len()
        invariant
            i <= sources@.len(),
            results@.len() == i,
            forall|k: int| 0 <= k < i ==> reports(#[trigger] results@[k], sources@[k]),
            views(all@) == all_fetched(sources@.subrange(0, i as int)),
        decreases sources.len() - i,
    {
        let source = &sources[i];
        let ghost before = views(all@);
        assert(all@.len() == before.len());
        let result = match &source.fetched {
            Ok(repos) => {
                let mut j: usize = 0;
                while j < repos.len()
                    invariant
                        j <= repos@.len(),
                        all@.len() == before.len() + j,
                        views(all@) == before + views(repos@).subrange(0, j as int),
                    decreases repos.len() - j,
                {
                    let ghost prev = all@;
                    all.push(repos[j].duplicate());
                    proof {
                        assert forall|k: int| 0 <= k < prev.len() implies views(all@)[k] == views(
                            prev,
                        )[k] by {
                            assert(all@[k] == prev[k]);
                        }
                        assert(views(all@)[before.len() + j] == views(repos@)[j as int]);
                        let target = before + views(repos@).subrange(0, j + 1);
                        let earlier = before + views(repos@).subrange(0, j as int);
                        assert forall|k: int| 0 <= k < target.len() implies views(all@)[k]
                            == target[k] by {
                            if k < before.len() + j {
                                assert(views(prev)[k] == earlier[k]);
                                if k >= before.len() {
                                    assert(earlier[k] == views(repos@)[k - before.len()]);
                                }
                            }
                        }
                        assert(views(all@) =~= target);
                    }
                    j = j + 1;
                }
                assert(views(repos@).subrange(0, repos@.len() as int) =~= views(repos@));
                LockResult {
                    provider: source.provider.clone(),
                    repos: Some(copy_repos(repos)),
                    success: true,
                    error: None,
                }
            },
            Err(e) => {
                assert(views(all@) =~= before + Seq::empty());
                LockResult {
                    provider: source.provider.clone(),
                    repos: None,
                    success: false,
                    error: Some(e.clone()),
                }
            },
        };
        results.push(result);
        proof {
            let pre = sources@.subrange(0, i as int);
            let post = sources@.subrange(0, i + 1);
            assert(post.drop_last() =~= pre);
            assert(post.last() == sources@[i as int]);
        }
        i = i + 1;
    }
    assert(sources@.subrange(0, sources@.len() as int) =~= sources@);
    let repositories = sorted_unique(&all);
    proof {
        if forall|i: int| 0 <= i < sources@.len() ==> (#[trigger] sources@[i]).fetched is Err {
            lemma_all_failed(sources@);
            if repositories@.len() > 0 {
                assert(views(repositories@).contains(views(repositories@)[0]));
            }
        }
    }
    LockOutcome { results, repositories }
}

proof fn lemma_all_failed(s: Seq<SourceOutcome>)
    requires
        forall|i: int| 0 <= i < s.len() ==> (#[trigger] s[i]).fetched is Err,
    ensures
        all_fetched(s).len() == 0,
    decreases s.len(),
{
    if s.len() > 0 {
        assert(s.drop_last().len() < s.len());
        assert forall|i: int| 0 <= i < s.drop_last().len() implies (#[trigger] s.drop_last()[i]).fetched is Err by {
            assert(s.drop_last()[i] == s[i]);
        }
        lemma_all_failed(s.drop_last());
        assert(s.last() == s[s.len() - 1]);
    }
}

/// A lock run is a function of the set of repositories that the sources
/// fetched: two runs whose sources fetched the same repositories, in any
/// order, with any repeats and spread over any sources, write the same
/// lockfile. In particular, running again on the same answers changes
/// nothing.
pub proof fn lemma_lock_deterministic(
    s1: Seq<SourceOutcome>,
    s2: Seq<SourceOutcome>,
    out1: Seq<RepositoryView>,
    out2: Seq<RepositoryView>,
)
    requires
        is_sorted_dedup_of(out1, all_fetched(s1)),
        is_sorted_dedup_of(out2, all_fetched(s2)),
        forall|x: RepositoryView| all_fetched(s1).contains(x) <==> all_fetched(s2).contains(x),
    ensures
        out1 == out2,
{
    lemma_strictly_sorted_unique(out1, out2);
}

/// A program and its arguments, to run in every clone.
#[derive(Debug)]
pub struct RunCommand {
    pub program: String,
    pub args: Vec<String>,
}

/// The command that fetches every remote of a clone, pruning deleted
/// branches and fetching submodules where needed.
pub fn fetch() -> (r: RunCommand)
    ensures
        r.program@ == "git"@,
        string_views(r.args@) == seq![
            "fetch"@,
            "--all"@,
            "--prune"@,
            "--recurse-submodules=on-demand"@,
            "--progress"@,
        ],
{
    let args = vec![
        "fetch".to_string(),
        "--all".to_string(),
        "--prune".to_string(),
        "--recurse-submodules=on-demand".to_string(),
        "--progress".to_string(),
    ];
    let r = RunCommand { program: "git".to_string(), args };
    proof {
        assert(string_views(r.args@) =~= seq![
            "fetch"@,
            "--all"@,
            "--prune"@,
            "--recurse-submodules=on-demand"@,
            "--progress"@,
        ]);
    }
    r
}

/// The items of `items` whose flag in `keep` is set, in order; an item
/// without a flag is left out.
pub open spec fn selected<T>(items: Seq<T>, keep: Seq<bool>) -> Seq<T>
    decreases items.len(),
{
    if items.len() == 0 {
        Seq::empty()
    } else {
        let rest = selected(items.drop_last(), keep);
        let i = items.len() - 1;
        if i < keep.len() && keep[i] {
            rest.push(items.last())
        } else {
            rest
        }
    }
}

/// Narrows a working set to the items whose flag is set, keeping their
/// order.
pub fn select<T>(items: Vec<T>, keep: &Vec<bool>) -> (r: Vec<T>)
    ensures
        r@ == selected(items@, keep@),
{
    let ghost all = items@;
    let mut items = items;
    let mut out: Vec<T> = Vec::new();
    let mut i: usize = 0;
    let n = items.len();
    while i < n
        invariant
            n == all.len(),
            i <= n,
            items@ == all.subrange(i as int, n as int),
            out@ == selected(all.subrange(0, i as int), keep@),
        decreases n - i,
    {
        let x = items.remove(0);
        proof {
            let pre = all.subrange(0, i as int);
            let post = all.subrange(0, i + 1);
            assert(post.drop_last() =~= pre);
            assert(post.last() == all[i as int]);
            assert(items@ =~= all.subrange(i + 1, n as int));
        }
        if i < keep.len() && keep[i] {
            out.push(x);
        }
        i = i + 1;
    }
    assert(all.subrange(0, n as int) =~= all);
    out
}

/// One line of the listing of a workspace.
#[derive(Debug)]
pub struct ListResult {
    pub repo: String,
}

impl ListResult {
    pub fn is_success(&self) -> (r: bool)
        ensures
            r,
    {
        true
    }
}

/// The listing of a workspace, from each repository and its resolved path
/// (`None` when the clone is not there): the repositories that are there, in
/// order, each by its full path when `full`, else by its name.
pub open spec fn listed(
    repos: Seq<RepositoryView>,
    resolved: Seq<Option<String>>,
    full: bool,
) -> Seq<Seq<char>>
    decreases repos.len(),
{
    if repos.len() == 0 {
        Seq::empty()
    } else {
        let rest = listed(repos.drop_last(), resolved, full);
        let i = repos.len() - 1;
        if i < resolved.len() && resolved[i] is Some {
            rest.push(
                if full {
                    resolved[i]->0@
                } else {
                    repos.last().path
                },
            )
        } else {
            rest
        }
    }
}

pub fn list(repositories: &Vec<Repository>, resolved: &Vec<Option<String>>, full: bool) -> (r: Vec<
    ListResult,
>)
    ensures
        r@.map_values(|l: ListResult| l.repo@) == listed(views(repositories@), resolved@, full),
{
    let ghost all = views(repositories@);
    let mut out: Vec<ListResult> = Vec::new();
    let mut i: usize = 0;
    while i < repositories.len()
        invariant
            all == views(repositories@),
            i <= repositories@.len(),
            out@.map_values(|l: ListResult| l.repo@) == listed(all.subrange(0, i as int), resolved@, full),
        decreases repositories.len() - i,
    {
        proof {
            let pre = all.subrange(0, i as int);
            let post = all.subrange(0, i + 1);
            assert(post.drop_last() =~= pre);
            assert(post.last() == repositories@[i as int]@);
        }
        if i < resolved.len() {
            match &resolved[i] {
                Some(p) => {
                    let message = if full {
                        p.clone()
                    } else {
                        repositories[i].name().clone()
                    };
                    let ghost prev = out@;
                    out.push(ListResult { repo: message });
                    proof {
                        assert(out@.map_values(|l: ListResult| l.repo@) =~= prev.map_values(
                            |l: ListResult| l.repo@,
                        ).push(message@));
                    }
                },
                None => {},
            }
        }
        i = i + 1;
    }
    assert(all.subrange(0, repositories@.len() as int) =~= all);
    out
}

} // verus!
