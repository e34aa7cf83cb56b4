//! Book-keeping of a batch: one fallible operation per item, run by a pool of
//! workers that the caller owns. The batch records each item's outcome and
//! the progress notifications that a sink must receive, in the order in
//! which they are due, whatever the number of workers or the mix of failures.
use crate::error::WorkspaceError;
use vstd::prelude::*;

verus! {

/// A notification for a progress sink.
#[derive(PartialEq, Eq, Structural, Debug, Clone, Copy)]
pub enum ProgressEvent {
    /// The batch starts, with this many items.
    Init(usize),
    /// Work on the item of this index starts.
    CreateStep(usize),
    /// Work on the item of this index is over, whatever its outcome.
    FinishStep(usize),
    /// Every item is over.
    Finish,
}

/// The outcome of the operation on the item of index `index`.
#[derive(Debug)]
pub struct ItemResult<R> {
    pub index: usize,
    pub outcome: Result<R, String>,
}

impl<R> ItemResult<R> {
    pub fn is_success(&self) -> (r: bool)
        ensures
            r == self.outcome is Ok,
    {
        self.outcome.is_ok()
    }
}

/// How many times `e` occurs in `s`.
pub open spec fn count_event(s: Seq<ProgressEvent>, e: ProgressEvent) -> nat
    decreases s.len(),
{
    if s.len() == 0 {
        0
    } else {
        count_event(s.drop_last(), e) + if s.last() == e {
            1nat
        } else {
            0nat
        }
    }
}

proof fn lemma_count_push(s: Seq<ProgressEvent>, x: ProgressEvent, e: ProgressEvent)
    ensures
        count_event(s.push(x), e) == count_event(s, e) + if x == e {
            1nat
        } else {
            0nat
        },
{
    assert(s.push(x).drop_last() =~= s);
}

/// Pushing `x` adds one to the count of `x`, for every kind of event, and
/// keeps the first event.
proof fn lemma_push_event(s: Seq<ProgressEvent>, x: ProgressEvent)
    ensures
        forall|n: usize| #[trigger]
            count_event(s.push(x), ProgressEvent::Init(n)) == count_event(s, ProgressEvent::Init(n))
                + if x == ProgressEvent::Init(n) {
                1nat
            } else {
                0nat
            },
        forall|n: usize| #[trigger]
            count_event(s.push(x), ProgressEvent::CreateStep(n)) == count_event(
                s,
                ProgressEvent::CreateStep(n),
            ) + if x == ProgressEvent::CreateStep(n) {
                1nat
            } else {
                0nat
            },
        forall|n: usize| #[trigger]
            count_event(s.push(x), ProgressEvent::FinishStep(n)) == count_event(
                s,
                ProgressEvent::FinishStep(n),
            ) + if x == ProgressEvent::FinishStep(n) {
                1nat
            } else {
                0nat
            },
        count_event(s.push(x), ProgressEvent::Finish) == count_event(s, ProgressEvent::Finish)
            + if x == ProgressEvent::Finish {
            1nat
        } else {
            0nat
        },
        s.len() > 0 ==> s.push(x)[0] == s[0],
{
    assert forall|e: ProgressEvent| #[trigger]
        count_event(s.push(x), e) == count_event(s, e) + if x == e {
            1nat
        } else {
            0nat
        } by {
        lemma_count_push(s, x, e);
    }
}

/// How many of `rs` succeeded.
pub open spec fn count_ok<R>(rs: Seq<ItemResult<R>>) -> nat
    decreases rs.len(),
{
    if rs.len() == 0 {
        0
    } else {
        count_ok(rs.drop_last()) + if rs.last().outcome is Ok {
            1nat
        } else {
            0nat
        }
    }
}

/// How many records succeeded and how many failed.
pub fn tally<R>(results: &Vec<ItemResult<R>>) -> (r: (usize, usize))
    ensures
        r.0 == count_ok(results@),
        r.0 + r.1 == results@.len(),
{
    let mut succeeded: usize = 0;
    let mut failed: usize = 0;
    let mut i: usize = 0;
    while i < results.len()
        invariant
            i <= results@.len(),
            succeeded == count_ok(results@.subrange(0, i as int)),
            succeeded + failed == i,
        decreases results.len() - i,
    {
        proof {
            let pre = results@.subrange(0, i as int);
            let post = results@.subrange(0, i + 1);
            assert(post.drop_last() =~= pre);
            assert(post.last() == results@[i as int]);
            lemma_count_ok_bound(pre);
        }
        if results[i].is_success() {
            succeeded = succeeded + 1;
        } else {
            failed = failed + 1;
        }
        i = i + 1;
    }
    assert(results@.subrange(0, results@.len() as int) =~= results@);
    (succeeded, failed)
}

proof fn lemma_count_ok_bound<R>(rs: Seq<ItemResult<R>>)
    ensures
        count_ok(rs) <= rs.len(),
    decreases rs.len(),
{
    if rs.len() > 0 {
        lemma_count_ok_bound(rs.drop_last());
    }
}

/// The state of one batch.
pub struct Batch<R> {
    total: usize,
    started: Vec<bool>,
    finished: Vec<bool>,
    n_finished: usize,
    events: Vec<ProgressEvent>,
    results: Vec<ItemResult<R>>,
    closed: bool,
}

/// A pool needs at least one worker; anything else cannot be built.
pub fn check_worker_count(worker_count: usize) -> (r: Result<(), WorkspaceError>)
    ensures
        r is Ok <==> worker_count > 0,
        r is Err ==> r->Err_0 is ThreadPool,
{
    if worker_count == 0 {
        Err(WorkspaceError::ThreadPool("a pool needs at least one worker".to_string()))
    } else {
        Ok(())
    }
}

impl<R> Batch<R> {
    pub closed spec fn spec_total(&self) -> nat {
        self.total as nat
    }

    pub closed spec fn spec_events(&self) -> Seq<ProgressEvent> {
        self.events@
    }

    pub closed spec fn spec_results(&self) -> Seq<ItemResult<R>> {
        self.results@
    }

    pub closed spec fn spec_started(&self, i: int) -> bool {
        self.started@[i]
    }

    pub closed spec fn spec_finished(&self, i: int) -> bool {
        self.finished@[i]
    }

    /// How many items are finished.
    pub closed spec fn spec_n_finished(&self) -> nat {
        self.n_finished as nat
    }

    pub closed spec fn spec_closed(&self) -> bool {
        self.closed
    }

    /// The notifications sent so far match the items' states: one `Init`
    /// first, one `CreateStep` per started item, one `FinishStep` per
    /// finished item, one `Finish` once closed, and nothing else; one record
    /// per finished item.
    pub closed spec fn wf(&self) -> bool {
        &&& self.started@.len() == self.total
        &&& self.finished@.len() == self.total
        &&& forall|i: int| 0 <= i < self.total ==> #[trigger] self.finished@[i] ==> self.started@[i]
        &&& self.events@.len() > 0
        &&& self.events@[0] == ProgressEvent::Init(self.total)
        &&& forall|n: usize| #[trigger]
            count_event(self.events@, ProgressEvent::Init(n)) == if n == self.total {
                1nat
            } else {
                0nat
            }
        &&& forall|i: usize| #[trigger]
            count_event(self.events@, ProgressEvent::CreateStep(i)) == if i < self.total
                && self.started@[i as int] {
                1nat
            } else {
                0nat
            }
        &&& forall|i: usize| #[trigger]
            count_event(self.events@, ProgressEvent::FinishStep(i)) == if i < self.total
                && self.finished@[i as int] {
                1nat
            } else {
                0nat
            }
        &&& count_event(self.events@, ProgressEvent::Finish) == if self.closed {
            1nat
        } else {
            0nat
        }
        &&& self.closed ==> self.events@.last() == ProgressEvent::Finish
        &&& self.closed ==> self.n_finished == self.total
        &&& self.results@.len() == self.n_finished
        &&& self.n_finished <= self.total
        &&& forall|j: int|
            0 <= j < self.results@.len() ==> (#[trigger] self.results@[j]).index < self.total
                && self.finished@[self.results@[j].index as int]
        &&& forall|j1: int, j2: int|
            0 <= j1 < j2 < self.results@.len() ==> (#[trigger] self.results@[j1]).index
                != (#[trigger] self.results@[j2]).index
        &&& self.n_finished == count_true(self.finished@)
    }

    /// A batch of `total` items; the sink is told `Init(total)`.
    pub fn new(total: usize) -> (r: Batch<R>)
        ensures
            r.wf(),
            r.spec_total() == total,
            r.spec_events() == seq![ProgressEvent::Init(total)],
            r.spec_results().len() == 0,
            r.spec_n_finished() == 0,
            !r.spec_closed(),
            forall|i: int| 0 <= i < total ==> !#[trigger] r.spec_started(i),
            forall|i: int| 0 <= i < total ==> !#[trigger] r.spec_finished(i),
    {
        let mut started: Vec<bool> = Vec::new();
        let mut finished: Vec<bool> = Vec::new();
        let mut i: usize = 0;
        while i < total
            invariant
                i <= total,
                started@.len() == i,
                finished@.len() == i,
                forall|k: int| 0 <= k < i ==> !started@[k] && !finished@[k],
            decreases total - i,
        {
            started.push(false);
            finished.push(false);
            i = i + 1;
        }
        let mut events: Vec<ProgressEvent> = Vec::new();
        events.push(ProgressEvent::Init(total));
        let r = Batch {
            total,
            started,
            finished,
            n_finished: 0,
            events,
            results: Vec::new(),
            closed: false,
        };
        proof {
            lemma_count_true_none(r.finished@);
            assert forall|e: ProgressEvent| #[trigger]
                count_event(r.events@, e) == if e == ProgressEvent::Init(total) {
                    1nat
                } else {
                    0nat
                } by {
                lemma_count_push(Seq::empty(), ProgressEvent::Init(total), e);
                assert(Seq::<ProgressEvent>::empty().push(ProgressEvent::Init(total)) =~= r.events@);
            }
            assert(forall|n: usize| #[trigger]
                count_event(r.events@, ProgressEvent::Init(n)) == if n == total {
                    1nat
                } else {
                    0nat
                });
            assert(forall|n: usize| #[trigger]
                count_event(r.events@, ProgressEvent::CreateStep(n)) == 0);
            assert(forall|n: usize| #[trigger]
                count_event(r.events@, ProgressEvent::FinishStep(n)) == 0);
            assert(count_event(r.events@, ProgressEvent::Finish) == 0);
            assert(r.events@ =~= seq![ProgressEvent::Init(total)]);
        }
        r
    }

    /// Marks item `i` as started; the sink is told `CreateStep(i)`. Does
    /// nothing, and answers false, for an unknown or already started item,
    /// or a closed batch.
    pub fn start(&mut self, i: usize) -> (r: bool)
        requires
            old(self).wf(),
        ensures
            final(self).wf(),
            final(self).spec_total() == old(self).spec_total(),
            final(self).spec_results() == old(self).spec_results(),
            final(self).spec_n_finished() == old(self).spec_n_finished(),
            final(self).spec_closed() == old(self).spec_closed(),
            r == (i < old(self).spec_total() && !old(self).spec_started(i as int) && !old(
                self,
            ).spec_closed()),
            r ==> final(self).spec_events() == old(self).spec_events().push(
                ProgressEvent::CreateStep(i),
            ),
            !r ==> final(self).spec_events() == old(self).spec_events(),
            forall|k: int|
                0 <= k < old(self).spec_total() ==> #[trigger] final(self).spec_started(k) == (
                old(self).spec_started(k) || (r && k == i)),
            forall|k: int|
                0 <= k < old(self).spec_total() ==> #[trigger] final(self).spec_finished(k)
                    == old(self).spec_finished(k),
    {
        if i >= self.total || self.started[i] || self.closed {
            return false;
        }
        let ghost ev0 = self.events@;
        self.started.set(i, true);
        self.events.push(ProgressEvent::CreateStep(i));
        proof {
            lemma_push_event(ev0, ProgressEvent::CreateStep(i));
        }
        true
    }

    /// Records the outcome of started item `i`; the sink is told
    /// `FinishStep(i)`. Does nothing, and answers false, for an item that is
    /// unknown, not started or already finished, or a closed batch.
    pub fn complete(&mut self, i: usize, outcome: Result<R, String>) -> (r: bool)
        requires
            old(self).wf(),
        ensures
            final(self).wf(),
            final(self).spec_total() == old(self).spec_total(),
            final(self).spec_closed() == old(self).spec_closed(),
            r == (i < old(self).spec_total() && old(self).spec_started(i as int) && !old(
                self,
            ).spec_finished(i as int) && !old(self).spec_closed()),
            r ==> final(self).spec_events() == old(self).spec_events().push(
                ProgressEvent::FinishStep(i),
            ),
            r ==> final(self).spec_results() == old(self).spec_results().push(
                ItemResult { index: i, outcome },
            ),
            final(self).spec_n_finished() == old(self).spec_n_finished() + if r {
                1nat
            } else {
                0nat
            },
            !r ==> final(self).spec_events() == old(self).spec_events(),
            !r ==> final(self).spec_results() == old(self).spec_results(),
            forall|k: int|
                0 <= k < old(self).spec_total() ==> #[trigger] final(self).spec_finished(k) == (
                old(self).spec_finished(k) || (r && k == i)),
            forall|k: int|
                0 <= k < old(self).spec_total() ==> #[trigger] final(self).spec_started(k)
                    == old(self).spec_started(k),
    {
        if i >= self.total || !self.started[i] || self.finished[i] || self.closed {
            return false;
        }
        let ghost ev0 = self.events@;
        let ghost fin0 = self.finished@;
        let ghost res0 = self.results@;
        self.finished.set(i, true);
        self.events.push(ProgressEvent::FinishStep(i));
        self.results.push(ItemResult { index: i, outcome });
        proof {
            lemma_push_event(ev0, ProgressEvent::FinishStep(i));
            assert forall|j: int| 0 <= j < self.results@.len() - 1 implies (
            #[trigger] self.results@[j]).index != i by {
                assert(self.results@[j] == res0[j]);
                assert(fin0[res0[j].index as int]);
            }
        }
        proof {
            lemma_count_true_set(fin0, i as int);
            lemma_count_true_full(fin0);
            assert(self.finished@ == fin0.update(i as int, true));
        }
        self.n_finished = self.n_finished + 1;
        true
    }

    /// Closes a batch whose items are all finished; the sink is told
    /// `Finish`. Does nothing, and answers false, while an item is open or
    /// once closed.
    pub fn finish(&mut self) -> (r: bool)
        requires
            old(self).wf(),
        ensures
            final(self).wf(),
            final(self).spec_total() == old(self).spec_total(),
            final(self).spec_results() == old(self).spec_results(),
            r == (!old(self).spec_closed() && old(self).spec_n_finished() == old(self).spec_total()),
            r ==> forall|k: int| 0 <= k < old(self).spec_total() ==> #[trigger] old(self).spec_finished(k),
            final(self).spec_n_finished() == old(self).spec_n_finished(),
            r ==> final(self).spec_events() == old(self).spec_events().push(ProgressEvent::Finish),
            !r ==> final(self).spec_events() == old(self).spec_events(),
            final(self).spec_closed() == (old(self).spec_closed() || r),
            forall|k: int|
                0 <= k < old(self).spec_total() ==> #[trigger] final(self).spec_finished(k)
                    == old(self).spec_finished(k),
            forall|k: int|
                0 <= k < old(self).spec_total() ==> #[trigger] final(self).spec_started(k)
                    == old(self).spec_started(k),
    {
        if self.closed {
            return false;
        }
        proof {
            lemma_count_true_full(self.finished@);
        }
        if self.n_finished != self.total {
            return false;
        }
        let ghost ev0 = self.events@;
        self.events.push(ProgressEvent::Finish);
        self.closed = true;
        proof {
            lemma_push_event(ev0, ProgressEvent::Finish);
        }
        true
    }

    /// The notifications due so far, in order.
    pub fn events(&self) -> (r: &Vec<ProgressEvent>)
        ensures
            r@ == self.spec_events(),
    {
        &self.events
    }

    /// The records of a closed batch: one per item.
    pub fn into_results(self) -> (r: Vec<ItemResult<R>>)
        requires
            self.wf(),
            self.spec_closed(),
        ensures
            r@ == self.spec_results(),
            r@.len() == self.spec_total(),
            forall|i: int| 0 <= i < r@.len() ==> (#[trigger] r@[i]).index < self.spec_total(),
            forall|j1: int, j2: int|
                0 <= j1 < j2 < r@.len() ==> (#[trigger] r@[j1]).index != (#[trigger] r@[j2]).index,
    {
        self.results
    }
}

/// Once a batch of `n` items is closed, the sink has been told exactly one
/// `Init(n)`, first; for each item exactly one `CreateStep` and one
/// `FinishStep`; nothing for any other index; and exactly one `Finish`,
/// last. This holds whatever the number of workers and whichever items
/// failed, and the batch holds one record per item.
pub proof fn lemma_closed_batch_events<R>(b: Batch<R>)
    requires
        b.wf(),
        b.spec_closed(),
    ensures
        b.spec_events()[0] == ProgressEvent::Init(b.spec_total() as usize),
        b.spec_events().last() == ProgressEvent::Finish,
        forall|n: usize| #[trigger]
            count_event(b.spec_events(), ProgressEvent::Init(n)) == if n == b.spec_total() {
                1nat
            } else {
                0nat
            },
        forall|i: usize| #[trigger]
            count_event(b.spec_events(), ProgressEvent::CreateStep(i)) == if i < b.spec_total() {
                1nat
            } else {
                0nat
            },
        forall|i: usize| #[trigger]
            count_event(b.spec_events(), ProgressEvent::FinishStep(i)) == if i < b.spec_total() {
                1nat
            } else {
                0nat
            },
        count_event(b.spec_events(), ProgressEvent::Finish) == 1,
        b.spec_results().len() == b.spec_total(),
{
    lemma_count_true_full(b.finished@);
    assert forall|i: usize| #[trigger]
        count_event(b.spec_events(), ProgressEvent::CreateStep(i)) == if i < b.spec_total() {
            1nat
        } else {
            0nat
        } by {
        if i < b.total {
            assert(b.finished@[i as int]);
        }
    }
    assert forall|i: usize| #[trigger]
        count_event(b.spec_events(), ProgressEvent::FinishStep(i)) == if i < b.spec_total() {
            1nat
        } else {
            0nat
        } by {
        if i < b.total {
            assert(b.finished@[i as int]);
        }
    }
}

/// How many entries of `s` are set.
pub open spec fn count_true(s: Seq<bool>) -> nat
    decreases s.len(),
{
    if s.len() == 0 {
        0
    } else {
        count_true(s.drop_last()) + if s.last() {
            1nat
        } else {
            0nat
        }
    }
}

proof fn lemma_count_true_full(s: Seq<bool>)
    ensures
        count_true(s) <= s.len(),
        count_true(s) == s.len() <==> forall|k: int| 0 <= k < s.len() ==> #[trigger] s[k],
    decreases s.len(),
{
    if s.len() > 0 {
        let t = s.drop_last();
        lemma_count_true_full(t);
        if count_true(s) == s.len() {
            assert forall|k: int| 0 <= k < s.len() implies #[trigger] s[k] by {
                if k < s.len() - 1 {
                    assert(t[k] == s[k]);
                }
            }
        }
        if forall|k: int| 0 <= k < s.len() ==> #[trigger] s[k] {
            assert forall|k: int| 0 <= k < t.len() implies #[trigger] t[k] by {
                assert(s[k]);
            }
            assert(s[s.len() - 1]);
        }
    }
}

proof fn lemma_count_true_none(s: Seq<bool>)
    requires
        forall|k: int| 0 <= k < s.len() ==> !#[trigger] s[k],
    ensures
        count_true(s) == 0,
    decreases s.len(),
{
    if s.len() > 0 {
        let t = s.drop_last();
        assert forall|k: int| 0 <= k < t.len() implies !#[trigger] t[k] by {
            assert(!s[k]);
        }
        lemma_count_true_none(t);
        assert(!s[s.len() - 1]);
    }
}

proof fn lemma_count_true_set(s: Seq<bool>, i: int)
    requires
        0 <= i < s.len(),
        !s[i],
    ensures
        count_true(s.update(i, true)) == count_true(s) + 1,
    decreases s.len(),
{
    let u = s.update(i, true);
    if i == s.len() - 1 {
        assert(u.drop_last() =~= s.drop_last());
    } else {
        assert(u.drop_last() =~= s.drop_last().update(i, true));
        lemma_count_true_set(s.drop_last(), i);
    }
}

} // verus!
