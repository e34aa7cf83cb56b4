//! The persisted desired-state: a sorted list of distinct repositories.
use crate::repository::{
    compare_repo, lemma_repo_lt_irreflexive, lemma_repo_lt_transitive, repo_lt, Repository,
    RepositoryView,
};
use core::cmp::Ordering;
use vstd::prelude::*;

verus! {

/// Where the lockfile of a workspace is kept.
pub struct Lockfile {
    path: String,
}

impl Lockfile {
    pub fn new(path: String) -> (r: Lockfile)
        ensures
            r.spec_path() == path@,
    {
        Lockfile { path }
    }

    pub closed spec fn spec_path(&self) -> Seq<char> {
        self.path@
    }

    pub fn path(&self) -> (r: &String)
        ensures
            r@ == self.spec_path(),
    {
        &self.path
    }
}

/// The values of a list of repositories.
pub open spec fn views(v: Seq<Repository>) -> Seq<RepositoryView> {
    v.map_values(|r: Repository| r@)
}

/// Each entry comes strictly before the next: sorted, and no two equal.
pub open spec fn strictly_sorted(s: Seq<RepositoryView>) -> bool {
    forall|i: int, j: int| 0 <= i < j < s.len() ==> repo_lt(#[trigger] s[i], #[trigger] s[j])
}

/// `out` is the sorted list of the distinct entries of `input`.
pub open spec fn is_sorted_dedup_of(out: Seq<RepositoryView>, input: Seq<RepositoryView>) -> bool {
    &&& strictly_sorted(out)
    &&& forall|x: RepositoryView| out.contains(x) <==> input.contains(x)
}

/// Adds `x` at its place in a sorted list, unless an equal entry is there.
fn insert_sorted(out: &mut Vec<Repository>, x: &Repository)
    requires
        strictly_sorted(views(old(out)@)),
    ensures
        strictly_sorted(views(final(out)@)),
        forall|y: RepositoryView|
            views(final(out)@).contains(y) <==> (views(old(out)@).contains(y) || y == x@),
{
    let ghost v0 = views(out@);
    let mut j: usize = 0;
    while j < out.len()
        invariant
            j <= out@.len(),
            views(out@) == v0,
            strictly_sorted(v0),
            forall|k: int| 0 <= k < j ==> repo_lt(#[trigger] v0[k], x@),
        ensures
            j <= out@.len(),
            views(out@) == v0,
            forall|k: int| 0 <= k < j ==> repo_lt(#[trigger] v0[k], x@),
            j < out@.len() ==> repo_lt(x@, v0[j as int]),
        decreases out.len() - j,
    {
        match compare_repo(&out[j], x) {
            Ordering::Less => {},
            Ordering::Equal => {
                assert(v0[j as int] == x@);
                assert(v0.contains(x@));
                return ;
            },
            Ordering::Greater => {
                break ;
            },
        }
        j = j + 1;
    }
    proof {
        assert forall|k: int| j <= k < v0.len() implies repo_lt(x@, #[trigger] v0[k]) by {
            if k > j {
                lemma_repo_lt_transitive(x@, v0[j as int], v0[k]);
            }
        }
    }
    out.insert(j, x.duplicate());
    proof {
        let v1 = views(out@);
        assert(v1 =~= v0.insert(j as int, x@));
        assert forall|a: int, b: int| 0 <= a < b < v1.len() implies repo_lt(
            #[trigger] v1[a],
            #[trigger] v1[b],
        ) by {
            if b < j {
            } else if a < j && b == j {
            } else if a < j {
                lemma_repo_lt_transitive(v0[a], x@, v0[b - 1]);
            } else if a == j {
            } else {
                assert(v1[a] == v0[a - 1]);
                assert(v1[b] == v0[b - 1]);
            }
        }
        assert forall|y: RepositoryView| v1.contains(y) <==> (v0.contains(y) || y == x@) by {
            if v1.contains(y) {
                let k = choose|k: int| 0 <= k < v1.len() && v1[k] == y;
                if k < j {
                    assert(v0[k] == y);
                } else if k > j {
                    assert(v0[k - 1] == y);
                }
            }
            if v0.contains(y) {
                let k = choose|k: int| 0 <= k < v0.len() && v0[k] == y;
                if k < j {
                    assert(v1[k] == y);
                } else {
                    assert(v1[k + 1] == y);
                }
            }
            if y == x@ {
                assert(v1[j as int] == y);
            }
        }
    }
}

/// The distinct repositories of `repos`, sorted: the form in which a
/// lockfile is written.
pub fn sorted_unique(repos: &Vec<Repository>) -> (r: Vec<Repository>)
    ensures
        is_sorted_dedup_of(views(r@), views(repos@)),
{
    let mut out: Vec<Repository> = Vec::new();
    let mut i: usize = 0;
    while i < repos.len()
        invariant
            i <= repos@.len(),
            strictly_sorted(views(out@)),
            forall|y: RepositoryView|
                views(out@).contains(y) <==> views(repos@).subrange(0, i as int).contains(y),
        decreases repos.len() - i,
    {
        insert_sorted(&mut out, &repos[i]);
        proof {
            let pre = views(repos@).subrange(0, i as int);
            let post = views(repos@).subrange(0, i + 1);
            assert(post =~= pre.push(repos@[i as int]@));
            assert forall|y: RepositoryView| post.contains(y) <==> (pre.contains(y) || y
                == repos@[i as int]@) by {
                if post.contains(y) {
                    let k = choose|k: int| 0 <= k < post.len() && post[k] == y;
                    if k < i {
                        assert(pre[k] == y);
                    }
                }
                if pre.contains(y) {
                    let k = choose|k: int| 0 <= k < pre.len() && pre[k] == y;
                    assert(post[k] == y);
                }
                if y == repos@[i as int]@ {
                    assert(post[i as int] == y);
                }
            }
        }
        i = i + 1;
    }
    assert(views(repos@).subrange(0, repos@.len() as int) =~= views(repos@));
    out
}

/// Two sorted lists without repeats that hold the same entries are the same
/// list.
pub proof fn lemma_strictly_sorted_unique(a: Seq<RepositoryView>, b: Seq<RepositoryView>)
    requires
        strictly_sorted(a),
        strictly_sorted(b),
        forall|x: RepositoryView| a.contains(x) <==> b.contains(x),
    ensures
        a == b,
    decreases a.len(),
{
    if a.len() == 0 {
        if b.len() > 0 {
            assert(b.contains(b[0]));
        }
        assert(a =~= b);
    } else if b.len() == 0 {
        assert(a.contains(a[0]));
    } else {
        // The first entries are the least of each list, so they agree.
        assert(a.contains(a[0]));
        assert(b.contains(b[0]));
        let ka = choose|k: int| 0 <= k < a.len() && a[k] == b[0];
        let kb = choose|k: int| 0 <= k < b.len() && b[k] == a[0];
        if ka > 0 && kb > 0 {
            assert(repo_lt(a[0], a[ka]));
            assert(repo_lt(b[0], b[kb]));
            lemma_repo_lt_transitive(a[0], b[0], a[0]);
            lemma_repo_lt_irreflexive(a[0]);
        } else if ka > 0 {
            assert(repo_lt(a[0], a[ka]));
            lemma_repo_lt_irreflexive(a[0]);
        } else if kb > 0 {
            assert(repo_lt(b[0], b[kb]));
            lemma_repo_lt_irreflexive(b[0]);
        }
        assert(a[0] == b[0]);
        let a1 = a.drop_first();
        let b1 = b.drop_first();
        assert forall|x: RepositoryView| a1.contains(x) <==> b1.contains(x) by {
            if a1.contains(x) {
                let k = choose|k: int| 0 <= k < a1.len() && a1[k] == x;
                assert(a[k + 1] == x);
                assert(repo_lt(a[0], a[k + 1]));
                lemma_repo_lt_irreflexive(x);
                assert(a.contains(x));
                let m = choose|m: int| 0 <= m < b.len() && b[m] == x;
                assert(m != 0);
                assert(b1[m - 1] == x);
            }
            if b1.contains(x) {
                let k = choose|k: int| 0 <= k < b1.len() && b1[k] == x;
                assert(b[k + 1] == x);
                assert(repo_lt(b[0], b[k + 1]));
                lemma_repo_lt_irreflexive(x);
                assert(b.contains(x));
                let m = choose|m: int| 0 <= m < a.len() && a[m] == x;
                assert(m != 0);
                assert(a1[m - 1] == x);
            }
        }
        assert forall|i: int, j: int| 0 <= i < j < a1.len() implies repo_lt(
            #[trigger] a1[i],
            #[trigger] a1[j],
        ) by {
            assert(a1[i] == a[i + 1] && a1[j] == a[j + 1]);
        }
        assert forall|i: int, j: int| 0 <= i < j < b1.len() implies repo_lt(
            #[trigger] b1[i],
            #[trigger] b1[j],
        ) by {
            assert(b1[i] == b[i + 1] && b1[j] == b[j + 1]);
        }
        lemma_strictly_sorted_unique(a1, b1);
        assert(a =~= seq![a[0]] + a1);
        assert(b =~= seq![b[0]] + b1);
    }
}

} // verus!
