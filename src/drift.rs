//! Finding stray git working directories: a depth-first walk of the
//! workspace with an explicit stack of pending directories. The caller reads
//! the disk; this module decides where the walk goes and what is a stray.
//!
//! A directory is named by its components relative to the workspace root.
use vstd::prelude::*;

verus! {

/// The components of a directory, as plain values.
pub open spec fn comps(v: Seq<String>) -> Seq<Seq<char>> {
    v.map_values(|s: String| s@)
}

/// `d` is `s` or lies somewhere below it.
pub open spec fn is_under(d: Seq<Seq<char>>, s: Seq<Seq<char>>) -> bool {
    s.len() <= d.len() && d.subrange(0, s.len() as int) == s
}

/// `d` is none of the protected directories, nor below one.
pub open spec fn outside_all(d: Seq<Seq<char>>, safe: Seq<Seq<Seq<char>>>) -> bool {
    forall|k: int| 0 <= k < safe.len() ==> !is_under(d, #[trigger] safe[k])
}

/// Neither of `a` and `b` is, or lies below, the other.
pub open spec fn unrelated(a: Seq<Seq<char>>, b: Seq<Seq<char>>) -> bool {
    !is_under(a, b) && !is_under(b, a)
}

/// The names of `v`, last first.
pub open spec fn reversed_names(v: Seq<String>) -> Seq<Seq<char>> {
    Seq::new(v.len(), |m: int| v[v.len() - 1 - m]@)
}

/// `s` with every repeat of an earlier entry left out.
pub open spec fn first_seen(s: Seq<Seq<char>>) -> Seq<Seq<char>>
    decreases s.len(),
{
    if s.len() == 0 {
        Seq::empty()
    } else {
        let r = first_seen(s.drop_last());
        if r.contains(s.last()) {
            r
        } else {
            r.push(s.last())
        }
    }
}

/// The subdirectories of `d` named in `names`, each once, in order.
pub open spec fn children(d: Seq<Seq<char>>, names: Seq<Seq<char>>) -> Seq<Seq<Seq<char>>> {
    first_seen(names).map_values(|x: Seq<char>| d.push(x))
}

proof fn lemma_first_seen(s: Seq<Seq<char>>)
    ensures
        forall|x: Seq<char>| first_seen(s).contains(x) <==> s.contains(x),
        forall|i: int, j: int|
            0 <= i < j < first_seen(s).len() ==> #[trigger] first_seen(s)[i] != #[trigger] first_seen(
                s,
            )[j],
    decreases s.len(),
{
    if s.len() > 0 {
        let t = s.drop_last();
        lemma_first_seen(t);
        assert forall|x: Seq<char>| first_seen(s).contains(x) <==> s.contains(x) by {
            if s.contains(x) {
                let k = choose|k: int| 0 <= k < s.len() && s[k] == x;
                if k < s.len() - 1 {
                    assert(t[k] == x);
                    assert(t.contains(x));
                }
            }
            if t.contains(x) {
                let k = choose|k: int| 0 <= k < t.len() && t[k] == x;
                assert(s[k] == x);
            }
            if first_seen(t).contains(x) {
                assert(first_seen(s).len() >= first_seen(t).len());
                let k = choose|k: int| 0 <= k < first_seen(t).len() && first_seen(t)[k] == x;
                assert(first_seen(s)[k] == x);
            }
            if first_seen(s).contains(x) && !first_seen(t).contains(x) {
                let k = choose|k: int| 0 <= k < first_seen(s).len() && first_seen(s)[k] == x;
                assert(x == s.last());
                assert(s[s.len() - 1] == x);
            }
            if x == s.last() {
                if !first_seen(t).contains(x) {
                    assert(first_seen(s)[first_seen(t).len() as int] == x);
                }
            }
        }
    }
}

/// A subdirectory of `d` stands to `e` as `d` does, where neither of `d`
/// and `e` is below the other.
proof fn lemma_child_unrelated(d: Seq<Seq<char>>, x: Seq<char>, e: Seq<Seq<char>>)
    requires
        unrelated(d, e),
    ensures
        unrelated(d.push(x), e),
{
    let c = d.push(x);
    assert(c.subrange(0, d.len() as int) =~= d);
    if is_under(c, e) {
        if e.len() <= d.len() {
            assert(d.subrange(0, e.len() as int) =~= c.subrange(0, e.len() as int));
        } else {
            assert(c.subrange(0, e.len() as int) =~= c);
            assert(e.subrange(0, d.len() as int) =~= c.subrange(0, d.len() as int));
        }
    }
    if is_under(e, c) {
        assert(e.subrange(0, d.len() as int) =~= e.subrange(0, c.len() as int).subrange(
            0,
            d.len() as int,
        ));
    }
}

/// Two subdirectories of one directory with different names are unrelated.
proof fn lemma_siblings(d: Seq<Seq<char>>, x: Seq<char>, y: Seq<char>)
    requires
        x != y,
    ensures
        unrelated(d.push(x), d.push(y)),
{
    if is_under(d.push(x), d.push(y)) {
        assert(d.push(x).subrange(0, d.len() as int + 1) =~= d.push(x));
        assert(d.push(x)[d.len() as int] == x);
    }
    if is_under(d.push(y), d.push(x)) {
        assert(d.push(y).subrange(0, d.len() as int + 1) =~= d.push(y));
        assert(d.push(y)[d.len() as int] == y);
    }
}

/// A stray working directory and where it should move to.
#[derive(Debug)]
pub struct ArchiveCandidate {
    pub path: Vec<String>,
    pub destination: Vec<String>,
}

/// What the walk did with the directory it was handed.
#[derive(PartialEq, Eq, Structural, Debug, Clone, Copy)]
pub enum ScanStep {
    /// A stray working directory: recorded, and not entered.
    Archive,
    /// An ordinary directory: its subdirectories are queued.
    Descend,
    /// No directory was being examined.
    Idle,
}

/// The state of one scan for stray working directories.
pub struct ArchiveScan {
    safe: Vec<Vec<String>>,
    archive_root: Vec<String>,
    pending: Vec<Vec<String>>,
    current: Option<Vec<String>>,
    candidates: Vec<ArchiveCandidate>,
}

pub fn same_components(a: &Vec<String>, b: &Vec<String>) -> (r: bool)
    ensures
        r == (comps(a@) == comps(b@)),
{
    if a.len() != b.len() {
        proof {
            assert(comps(a@).len() != comps(b@).len());
        }
        return false;
    }
    let mut k: usize = 0;
    while k < a.len()
        invariant
            a@.len() == b@.len(),
            k <= a@.len(),
            forall|m: int| 0 <= m < k ==> a@[m]@ == b@[m]@,
        decreases a.len() - k,
    {
        if a[k] != b[k] {
            proof {
                assert(comps(a@)[k as int] != comps(b@)[k as int]);
            }
            return false;
        }
        k = k + 1;
    }
    proof {
        assert(comps(a@) =~= comps(b@));
    }
    true
}

fn copy_components(v: &Vec<String>) -> (r: Vec<String>)
    ensures
        r@.len() == v@.len(),
        comps(r@) == comps(v@),
{
    let mut out: Vec<String> = Vec::new();
    let mut i: usize = 0;
    while i < v.len()
        invariant
            i <= v@.len(),
            out@.len() == i,
            forall|m: int| 0 <= m < i ==> out@[m]@ == v@[m]@,
        decreases v.len() - i,
    {
        out.push(v[i].clone());
        i = i + 1;
    }
    proof {
        assert(comps(out@) =~= comps(v@));
    }
    out
}

/// `a` followed by `b`.
fn concat_components(a: &Vec<String>, b: &Vec<String>) -> (r: Vec<String>)
    ensures
        comps(r@) == comps(a@) + comps(b@),
{
    let mut out = copy_components(a);
    let mut i: usize = 0;
    while i < b.len()
        invariant
            i <= b@.len(),
            out@.len() == a@.len() + i,
            comps(out@) == comps(a@) + comps(b@).subrange(0, i as int),
        decreases b.len() - i,
    {
        let ghost prev = out@;
        out.push(b[i].clone());
        proof {
            assert forall|m: int| 0 <= m < prev.len() implies comps(out@)[m] == comps(prev)[m] by {
                assert(out@[m] == prev[m]);
            }
            let target = comps(a@) + comps(b@).subrange(0, i + 1);
            let earlier = comps(a@) + comps(b@).subrange(0, i as int);
            assert forall|m: int| 0 <= m < target.len() implies comps(out@)[m] == target[m] by {
                if m < prev.len() {
                    assert(comps(prev)[m] == earlier[m]);
                    if m >= a@.len() {
                        assert(earlier[m] == comps(b@)[m - a@.len()]);
                    }
                } else {
                    assert(comps(out@)[m] == b@[i as int]@);
                }
            }
            assert(comps(out@) =~= target);
        }
        i = i + 1;
    }
    proof {
        assert(comps(b@).subrange(0, b@.len() as int) =~= comps(b@));
    }
    out
}

impl ArchiveScan {
    pub closed spec fn spec_safe(&self) -> Seq<Seq<Seq<char>>> {
        self.safe@.map_values(|v: Vec<String>| comps(v@))
    }

    pub closed spec fn spec_archive_root(&self) -> Seq<Seq<char>> {
        comps(self.archive_root@)
    }

    pub closed spec fn spec_candidates(&self) -> Seq<ArchiveCandidate> {
        self.candidates@
    }

    pub closed spec fn spec_current(&self) -> Option<Seq<Seq<char>>> {
        match self.current {
            Some(d) => Some(comps(d@)),
            None => None,
        }
    }

    pub closed spec fn spec_pending(&self) -> Seq<Seq<Seq<char>>> {
        self.pending@.map_values(|v: Vec<String>| comps(v@))
    }

    /// Every queued directory lies below no protected directory (it may be
    /// one itself); the directory being examined and every candidate lie
    /// outside all of them; every candidate moves to the same place under
    /// the archive root.
    pub closed spec fn wf(&self) -> bool {
        &&& self.spec_safe().contains(self.spec_archive_root())
        &&& forall|i: int, k: int|
            0 <= i < self.spec_pending().len() && 0 <= k < self.spec_safe().len() && is_under(
                #[trigger] self.spec_pending()[i],
                #[trigger] self.spec_safe()[k],
            ) ==> self.spec_pending()[i] == self.spec_safe()[k]
        &&& (self.spec_current() is Some ==> outside_all(
            self.spec_current()->0,
            self.spec_safe(),
        ))
        &&& forall|i: int|
            0 <= i < self.candidates@.len() ==> outside_all(
                comps((#[trigger] self.candidates@[i]).path@),
                self.spec_safe(),
            ) && comps(self.candidates@[i].destination@) == self.spec_archive_root() + comps(
                self.candidates@[i].path@,
            )
        &&& forall|i: int, j: int|
            0 <= i < self.candidates@.len() && 0 <= j < self.candidates@.len() && i != j
                ==> !is_under(
                comps((#[trigger] self.candidates@[i]).path@),
                comps((#[trigger] self.candidates@[j]).path@),
            )
        &&& forall|i: int, j: int|
            0 <= i < self.candidates@.len() && 0 <= j < self.spec_pending().len() ==> unrelated(
                comps((#[trigger] self.candidates@[i]).path@),
                #[trigger] self.spec_pending()[j],
            )
        &&& forall|i: int, j: int|
            0 <= i < self.spec_pending().len() && 0 <= j < self.spec_pending().len() && i != j
                ==> !is_under(#[trigger] self.spec_pending()[i], #[trigger] self.spec_pending()[j])
        &&& (self.spec_current() is Some ==> {
            &&& forall|i: int|
                0 <= i < self.candidates@.len() ==> unrelated(
                    self.spec_current()->0,
                    comps((#[trigger] self.candidates@[i]).path@),
                )
            &&& forall|j: int|
                0 <= j < self.spec_pending().len() ==> unrelated(
                    self.spec_current()->0,
                    #[trigger] self.spec_pending()[j],
                )
        })
    }

    /// A scan of the whole workspace that will not enter `archive_root` nor
    /// any of `protected` (the desired repositories that are present).
    pub fn new(protected: &Vec<Vec<String>>, archive_root: &Vec<String>) -> (r: ArchiveScan)
        ensures
            r.wf(),
            r.spec_safe() == protected@.map_values(|v: Vec<String>| comps(v@)).push(
                comps(archive_root@),
            ),
            r.spec_archive_root() == comps(archive_root@),
            r.spec_candidates().len() == 0,
            r.spec_current() is None,
            r.spec_pending() == seq![Seq::<Seq<char>>::empty()],
    {
        let mut safe: Vec<Vec<String>> = Vec::new();
        let mut i: usize = 0;
        while i < protected.len()
            invariant
                i <= protected@.len(),
                safe@.len() == i,
                forall|m: int| 0 <= m < i ==> comps(safe@[m]@) == comps(protected@[m]@),
            decreases protected.len() - i,
        {
            safe.push(copy_components(&protected[i]));
            i = i + 1;
        }
        safe.push(copy_components(archive_root));
        let mut pending: Vec<Vec<String>> = Vec::new();
        let root: Vec<String> = Vec::new();
        proof {
            assert(comps(root@) =~= Seq::<Seq<char>>::empty());
        }
        pending.push(root);
        let r = ArchiveScan {
            safe,
            archive_root: copy_components(archive_root),
            pending,
            current: None,
            candidates: Vec::new(),
        };
        proof {
            assert(r.spec_safe() =~= protected@.map_values(|v: Vec<String>| comps(v@)).push(
                comps(archive_root@),
            ));
            assert(r.spec_safe()[r.spec_safe().len() - 1] == r.spec_archive_root());
            assert(r.spec_pending() =~= seq![Seq::<Seq<char>>::empty()]);
            assert forall|i: int, k: int|
                0 <= i < r.spec_pending().len() && 0 <= k < r.spec_safe().len() && is_under(
                    #[trigger] r.spec_pending()[i],
                    #[trigger] r.spec_safe()[k],
                ) implies r.spec_pending()[i] == r.spec_safe()[k] by {
                assert(r.spec_safe()[k].subrange(0, 0) =~= r.spec_safe()[k]);
            }
        }
        r
    }

    /// The stray working directories found so far, each outside every
    /// protected directory and the archive root, and none of them the same
    /// as, or below, another.
    pub fn candidates(&self) -> (r: &Vec<ArchiveCandidate>)
        requires
            self.wf(),
        ensures
            r@ == self.spec_candidates(),
            forall|i: int|
                0 <= i < r@.len() ==> outside_all(comps((#[trigger] r@[i]).path@), self.spec_safe()),
            forall|i: int|
                0 <= i < r@.len() ==> !is_under(
                    comps((#[trigger] r@[i]).path@),
                    self.spec_archive_root(),
                ),
            forall|i: int|
                0 <= i < r@.len() ==> comps((#[trigger] r@[i]).destination@)
                    == self.spec_archive_root() + comps(r@[i].path@),
            forall|i: int, j: int|
                0 <= i < r@.len() && 0 <= j < r@.len() && i != j ==> !is_under(
                    comps((#[trigger] r@[i]).path@),
                    comps((#[trigger] r@[j]).path@),
                ),
    {
        proof {
            let k = choose|k: int|
                0 <= k < self.spec_safe().len() && self.spec_safe()[k] == self.spec_archive_root();
            assert forall|i: int| 0 <= i < self.candidates@.len() implies !is_under(
                comps((#[trigger] self.candidates@[i]).path@),
                self.spec_archive_root(),
            ) by {
                assert(outside_all(comps(self.candidates@[i].path@), self.spec_safe()));
                assert(!is_under(comps(self.candidates@[i].path@), self.spec_safe()[k]));
            }
        }
        &self.candidates
    }

    /// Whether `d` is one of the protected directories.
    fn is_protected(&self, d: &Vec<String>) -> (r: bool)
        ensures
            r == self.spec_safe().contains(comps(d@)),
    {
        let mut k: usize = 0;
        while k < self.safe.len()
            invariant
                k <= self.safe@.len(),
                forall|m: int| 0 <= m < k ==> self.spec_safe()[m] != comps(d@),
            decreases self.safe.len() - k,
        {
            if same_components(&self.safe[k], d) {
                proof {
                    assert(self.spec_safe()[k as int] == comps(d@));
                }
                return true;
            }
            k = k + 1;
        }
        false
    }

    /// The next directory to examine, or `None` when the walk is over.
    /// Protected directories are skipped without being entered.
    pub fn next_directory(&mut self) -> (r: Option<Vec<String>>)
        requires
            old(self).wf(),
        ensures
            final(self).wf(),
            final(self).spec_safe() == old(self).spec_safe(),
            final(self).spec_archive_root() == old(self).spec_archive_root(),
            final(self).spec_candidates() == old(self).spec_candidates(),
            match r {
                Some(d) => {
                    let n = final(self).spec_pending().len();
                    &&& final(self).spec_current() == Some(comps(d@))
                    &&& outside_all(comps(d@), final(self).spec_safe())
                    &&& n < old(self).spec_pending().len()
                    &&& final(self).spec_pending() == old(self).spec_pending().subrange(0, n as int)
                    &&& comps(d@) == old(self).spec_pending()[n as int]
                    &&& forall|m: int|
                        n < m < old(self).spec_pending().len() ==> old(
                            self,
                        ).spec_safe().contains(#[trigger] old(self).spec_pending()[m])
                },
                None => {
                    &&& final(self).spec_current() is None
                    &&& final(self).spec_pending().len() == 0
                    &&& forall|m: int|
                        0 <= m < old(self).spec_pending().len() ==> old(
                            self,
                        ).spec_safe().contains(#[trigger] old(self).spec_pending()[m])
                },
            },
    {
        self.current = None;
        proof {
            assert(self.spec_pending() == old(self).spec_pending());
            assert(self.spec_safe() == old(self).spec_safe());
        }
        while self.pending.len() > 0
            invariant
                self.wf(),
                self.current is None,
                self.spec_safe() == old(self).spec_safe(),
                self.spec_archive_root() == old(self).spec_archive_root(),
                self.spec_candidates() == old(self).spec_candidates(),
                self.spec_pending().len() <= old(self).spec_pending().len(),
                self.spec_pending() == old(self).spec_pending().subrange(
                    0,
                    self.spec_pending().len() as int,
                ),
                forall|m: int|
                    self.spec_pending().len() <= m < old(self).spec_pending().len() ==> old(
                        self,
                    ).spec_safe().contains(#[trigger] old(self).spec_pending()[m]),
            decreases self.pending.len(),
        {
            let ghost before = self.spec_pending();
            let d = self.pending.pop().unwrap();
            proof {
                assert(self.spec_pending() =~= before.drop_last());
                assert(comps(d@) == before[before.len() - 1]);
                assert forall|i: int, k: int|
                    0 <= i < self.spec_pending().len() && 0 <= k < self.spec_safe().len()
                        && is_under(
                        #[trigger] self.spec_pending()[i],
                        #[trigger] self.spec_safe()[k],
                    ) implies self.spec_pending()[i] == self.spec_safe()[k] by {
                    assert(self.spec_pending()[i] == before[i]);
                }
            }
            if !self.is_protected(&d) {
                proof {
                    assert forall|k: int| 0 <= k < self.spec_safe().len() implies !is_under(
                        comps(d@),
                        #[trigger] self.spec_safe()[k],
                    ) by {
                        if is_under(comps(d@), self.spec_safe()[k]) {
                            assert(before[before.len() - 1] == self.spec_safe()[k]);
                        }
                    }
                }
                let r = copy_components(&d);
                self.current = Some(d);
                proof {
                    assert(self.spec_pending() == old(self).spec_pending().subrange(
                        0,
                        self.spec_pending().len() as int,
                    ));
                }
                return Some(r);
            }
            proof {
                assert(self.spec_safe().contains(before[before.len() - 1]));
            }
        }
        proof {
            assert(self.spec_pending().len() == 0);
        }
        None
    }

    /// Records what the caller found in the directory under examination:
    /// whether it holds a `.git` directory, and, where it does not, the names
    /// of its subdirectories. Distinct names are examined in the order given;
    /// a repeated name is queued once.
    pub fn visit(&mut self, has_git: bool, subdirectories: &Vec<String>) -> (r: ScanStep)
        requires
            old(self).wf(),
        ensures
            final(self).wf(),
            final(self).spec_safe() == old(self).spec_safe(),
            final(self).spec_archive_root() == old(self).spec_archive_root(),
            final(self).spec_current() is None,
            match old(self).spec_current() {
                None => r == ScanStep::Idle && final(self).spec_candidates() == old(
                    self,
                ).spec_candidates() && final(self).spec_pending() == old(self).spec_pending(),
                Some(d) => if has_git {
                    &&& r == ScanStep::Archive
                    &&& final(self).spec_candidates().len() == old(self).spec_candidates().len()
                        + 1
                    &&& final(self).spec_candidates().drop_last() == old(self).spec_candidates()
                    &&& comps(final(self).spec_candidates().last().path@) == d
                    &&& final(self).spec_pending() == old(self).spec_pending()
                } else {
                    &&& r == ScanStep::Descend
                    &&& final(self).spec_candidates() == old(self).spec_candidates()
                    &&& final(self).spec_pending() == old(self).spec_pending() + children(
                        d,
                        reversed_names(subdirectories@),
                    )
                },
            },
    {
        let d = match self.current.take() {
            None => {
                return ScanStep::Idle;
            },
            Some(d) => d,
        };
        let ghost dv = comps(d@);
        proof {
            assert(self.spec_pending() == old(self).spec_pending());
            assert(self.spec_safe() == old(self).spec_safe());
        }
        if has_git {
            let destination = concat_components(&self.archive_root, &d);
            self.candidates.push(ArchiveCandidate { path: d, destination });
            proof {
                assert forall|i: int| 0 <= i < self.candidates@.len() implies outside_all(
                    comps((#[trigger] self.candidates@[i]).path@),
                    self.spec_safe(),
                ) && comps(self.candidates@[i].destination@) == self.spec_archive_root() + comps(
                    self.candidates@[i].path@,
                ) by {
                    if i < self.candidates@.len() - 1 {
                        assert(self.candidates@[i] == old(self).candidates@[i]);
                    }
                }
                assert(self.spec_candidates().drop_last() =~= old(self).spec_candidates());
                assert(self.spec_pending() == old(self).spec_pending());
                assert(self.spec_safe() == old(self).spec_safe());
            }
            return ScanStep::Archive;
        }
        let ghost p0 = self.spec_pending();
        let ghost names = reversed_names(subdirectories@);
        proof {
            assert(p0 =~= p0 + children(dv, names.subrange(0, 0)));
        }
        let n = subdirectories.len();
        let mut i: usize = 0;
        while i < n
            invariant
                n == subdirectories@.len(),
                names == reversed_names(subdirectories@),
                i <= n,
                self.current is None,
                self.safe == old(self).safe,
                self.archive_root == old(self).archive_root,
                self.candidates == old(self).candidates,
                outside_all(dv, self.spec_safe()),
                comps(d@) == dv,
                old(self).spec_current() == Some(dv),
                self.spec_pending() == p0 + children(dv, names.subrange(0, i as int)),
                forall|j: int| 0 <= j < p0.len() ==> unrelated(dv, #[trigger] p0[j]),
                forall|k: int|
                    0 <= k < self.candidates@.len() ==> unrelated(
                        dv,
                        comps((#[trigger] self.candidates@[k]).path@),
                    ),
                self.wf(),
            decreases n - i,
        {
            let ghost pre = names.subrange(0, i as int);
            let ghost post = names.subrange(0, i + 1);
            let ghost x = names[i as int];
            proof {
                assert(post.drop_last() =~= pre);
                assert(post.last() == x);
                assert(x == subdirectories@[n - 1 - i]@);
                lemma_first_seen(pre);
            }
            let mut seen = false;
            let mut m: usize = 0;
            while m < i
                invariant
                    n == subdirectories@.len(),
                    i < n,
                    m <= i,
                    names == reversed_names(subdirectories@),
                    pre == names.subrange(0, i as int),
                    x == subdirectories@[n - 1 - i]@,
                    seen == exists|k: int| 0 <= k < m && pre[k] == x,
                decreases i - m,
            {
                if subdirectories[n - 1 - m] == subdirectories[n - 1 - i] {
                    proof {
                        assert(pre[m as int] == x);
                    }
                    seen = true;
                }
                m = m + 1;
            }
            proof {
                if seen {
                    let k = choose|k: int| 0 <= k < i && pre[k] == x;
                    assert(pre.contains(x));
                } else {
                    assert(!pre.contains(x));
                }
                assert(first_seen(post) == if first_seen(pre).contains(x) {
                    first_seen(pre)
                } else {
                    first_seen(pre).push(x)
                });
            }
            if seen {
                proof {
                    assert(children(dv, post) =~= children(dv, pre));
                }
            } else {
                let mut child = copy_components(&d);
                child.push(subdirectories[n - 1 - i].clone());
                let ghost cv = comps(child@);
                proof {
                    assert(cv =~= dv.push(x));
                    assert forall|k: int| 0 <= k < self.spec_safe().len() && is_under(
                        cv,
                        #[trigger] self.spec_safe()[k],
                    ) implies cv == self.spec_safe()[k] by {
                        let s = self.spec_safe()[k];
                        if s.len() < cv.len() {
                            assert(dv.subrange(0, s.len() as int) =~= cv.subrange(
                                0,
                                s.len() as int,
                            ));
                            assert(is_under(dv, s));
                        } else {
                            assert(cv.subrange(0, s.len() as int) =~= cv);
                        }
                    }
                }
                let ghost prev = self.spec_pending();
                self.pending.push(child);
                proof {
                    let fs = first_seen(pre);
                    assert(self.spec_pending() =~= prev.push(cv));
                    assert(children(dv, post) =~= children(dv, pre).push(cv));
                    assert(self.spec_pending() =~= p0 + children(dv, post));
                    // the new directory against everything queued before it
                    assert forall|j: int| 0 <= j < prev.len() implies unrelated(
                        cv,
                        #[trigger] prev[j],
                    ) by {
                        if j < p0.len() {
                            assert(prev[j] == p0[j]);
                            lemma_child_unrelated(dv, x, p0[j]);
                        } else {
                            let y = fs[j - p0.len()];
                            assert(prev[j] == dv.push(y));
                            assert(fs.contains(y));
                            lemma_siblings(dv, x, y);
                        }
                    }
                    assert forall|k: int| 0 <= k < self.candidates@.len() implies unrelated(
                        comps((#[trigger] self.candidates@[k]).path@),
                        cv,
                    ) by {
                        lemma_child_unrelated(dv, x, comps(self.candidates@[k].path@));
                    }
                    let pend = self.spec_pending();
                    assert forall|j: int, k: int|
                        0 <= j < pend.len() && 0 <= k < self.spec_safe().len() && is_under(
                            #[trigger] pend[j],
                            #[trigger] self.spec_safe()[k],
                        ) implies pend[j] == self.spec_safe()[k] by {
                        if j < prev.len() {
                            assert(pend[j] == prev[j]);
                        }
                    }
                    assert forall|a: int, b: int|
                        0 <= a < pend.len() && 0 <= b < pend.len() && a != b implies !is_under(
                            #[trigger] pend[a],
                            #[trigger] pend[b],
                        ) by {
                        if a < prev.len() && b < prev.len() {
                            assert(pend[a] == prev[a] && pend[b] == prev[b]);
                        } else if a < prev.len() {
                            assert(pend[a] == prev[a]);
                        } else {
                            assert(pend[b] == prev[b]);
                        }
                    }
                    assert forall|k: int, j: int|
                        0 <= k < self.candidates@.len() && 0 <= j < pend.len() implies unrelated(
                            comps((#[trigger] self.candidates@[k]).path@),
                            #[trigger] pend[j],
                        ) by {
                        if j < prev.len() {
                            assert(pend[j] == prev[j]);
                        }
                    }
                }
            }
            i = i + 1;
        }
        proof {
            assert(names.subrange(0, n as int) =~= names);
        }
        ScanStep::Descend
    }
}

} // verus!
