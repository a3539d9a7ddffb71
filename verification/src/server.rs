//! The host side of the coordination protocol: heartbeat bookkeeping and
//! the request handler that maps each inbound request to its response.
//!
//! The handler is the in-memory heart of each connection loop: the transport
//! reads one framed request, calls [`handle_request`] under the host's
//! locks, and writes the response back. No I/O happens here.

use vstd::prelude::*;

use crate::messages::{Request, Response};
use crate::result_aggregator::ResultAggregator;
use crate::task_manager::TaskManager;

verus! {

/// Last-seen heartbeat time of one worker.
#[derive(Debug)]
pub struct WorkerSeen {
    pub worker_id: String,
    pub last_seen_ms: u64,
}

/// The index of the entry for `w` in `s`, or `-1` if none exists.
pub open spec fn worker_index(s: Seq<WorkerSeen>, w: Seq<char>) -> int
    decreases s.len(),
{
    if s.len() == 0 {
        -1
    } else if s[0].worker_id@ == w {
        0
    } else {
        let rest = worker_index(s.drop_first(), w);
        if rest == -1 {
            -1
        } else {
            rest + 1
        }
    }
}

proof fn lemma_worker_index_range(s: Seq<WorkerSeen>, w: Seq<char>)
    ensures
        -1 <= worker_index(s, w) < s.len(),
        worker_index(s, w) >= 0 ==> s[worker_index(s, w)].worker_id@ == w,
        worker_index(s, w) == -1 ==> forall|i: int|
            0 <= i < s.len() ==> (#[trigger] s[i].worker_id@) != w,
    decreases s.len(),
{
    if s.len() > 0 && s[0].worker_id@ != w {
        lemma_worker_index_range(s.drop_first(), w);
        if worker_index(s, w) == -1 {
            assert forall|i: int|
                0 <= i < s.len() implies (#[trigger] s[i].worker_id@) != w by {
                if i > 0 {
                    assert(s.drop_first()[i - 1] == s[i]);
                }
            }
        }
    }
}

proof fn lemma_worker_index_found(s: Seq<WorkerSeen>, w: Seq<char>, i: int)
    requires
        0 <= i < s.len(),
        s[i].worker_id@ == w,
        forall|k: int| 0 <= k < i ==> (#[trigger] s[k].worker_id@) != w,
    ensures
        worker_index(s, w) == i,
    decreases i,
{
    if i > 0 {
        assert(s.drop_first()[i - 1] == s[i]);
        assert forall|k: int|
            0 <= k < i - 1 implies (#[trigger] s.drop_first()[k].worker_id@) != w by {
            assert(s.drop_first()[k] == s[k + 1]);
        }
        lemma_worker_index_found(s.drop_first(), w, i - 1);
    }
}

proof fn lemma_worker_index_same(a: Seq<WorkerSeen>, b: Seq<WorkerSeen>)
    requires
        a.len() == b.len(),
        forall|k: int| 0 <= k < a.len() ==> a[k].worker_id@ == #[trigger] b[k].worker_id@,
    ensures
        forall|g: Seq<char>| #[trigger] worker_index(a, g) == worker_index(b, g),
    decreases a.len(),
{
    if a.len() > 0 {
        lemma_worker_index_same(a.drop_first(), b.drop_first());
        assert forall|g: Seq<char>| true implies #[trigger] worker_index(a, g) == worker_index(
            b,
            g,
        ) by {
            assert(worker_index(a.drop_first(), g) == worker_index(b.drop_first(), g));
        }
    }
}

proof fn lemma_worker_index_push(a: Seq<WorkerSeen>, e: WorkerSeen, g: Seq<char>)
    ensures
        worker_index(a, g) >= 0 ==> worker_index(a.push(e), g) == worker_index(a, g),
        worker_index(a, g) == -1 && e.worker_id@ == g ==> worker_index(a.push(e), g) == a.len(),
        worker_index(a, g) == -1 && e.worker_id@ != g ==> worker_index(a.push(e), g) == -1,
    decreases a.len(),
{
    reveal_with_fuel(worker_index, 3);
    let ap = a.push(e);
    if a.len() == 0 {
        assert(ap[0] == e);
        assert(ap.drop_first() =~= Seq::<WorkerSeen>::empty());
        if e.worker_id@ == g {
            assert(worker_index(ap, g) == 0);
        } else {
            assert(worker_index(ap.drop_first(), g) == -1);
            assert(worker_index(ap, g) == -1);
        }
    } else {
        assert(ap[0] == a[0]);
        lemma_worker_index_push(a.drop_first(), e, g);
        assert(ap.drop_first() =~= a.drop_first().push(e));
        if a[0].worker_id@ != g {
            lemma_worker_index_range(a.drop_first(), g);
        }
    }
}

/// Tracks the last heartbeat time of every worker that ever signaled.
#[derive(Debug)]
pub struct WorkerLiveness {
    seen: Vec<WorkerSeen>,
}

impl WorkerLiveness {
    /// The recorded entries, one per worker.
    pub closed spec fn seen_view(self) -> Seq<WorkerSeen> {
        self.seen@
    }

    /// When `w` was last heard from, if ever.
    pub open spec fn last_seen_of(self, w: Seq<char>) -> Option<u64> {
        let j = worker_index(self.seen_view(), w);
        if j == -1 {
            None
        } else {
            Some(self.seen_view()[j].last_seen_ms)
        }
    }

    /// Well-formedness: one entry per worker.
    pub open spec fn wf(self) -> bool {
        forall|i1: int, i2: int|
            #![trigger self.seen_view()[i1].worker_id@, self.seen_view()[i2].worker_id@]
            0 <= i1 < self.seen_view().len() && 0 <= i2 < self.seen_view().len() && i1 != i2
                ==> self.seen_view()[i1].worker_id@ != self.seen_view()[i2].worker_id@
    }

    /// One heartbeat: `w`'s last-seen time becomes `now_ms`, every other
    /// worker's is untouched.
    pub open spec fn heartbeat_step(
        pre: WorkerLiveness,
        post: WorkerLiveness,
        w: Seq<char>,
        now_ms: u64,
    ) -> bool {
        &&& post.last_seen_of(w) == Some(now_ms)
        &&& forall|g: Seq<char>| g != w ==> #[trigger] post.last_seen_of(g) == pre.last_seen_of(g)
    }

    /// Builds an empty tracker.
    pub fn new() -> (r: WorkerLiveness)
        ensures
            r.wf(),
            r.seen_view().len() == 0,
            forall|g: Seq<char>| #[trigger] r.last_seen_of(g) is None,
    {
        WorkerLiveness { seen: Vec::new() }
    }

    /// When `worker_id` last signaled, if ever.
    pub fn last_seen(&self, worker_id: &str) -> (r: Option<u64>)
        requires
            self.wf(),
        ensures
            r == self.last_seen_of(worker_id@),
    {
        let wid = worker_id.to_owned();
        let n = self.seen.len();
        let mut i: usize = 0;
        while i < n
            invariant
                self.wf(),
                wid@ == worker_id@,
                n == self.seen_view().len(),
                i <= n,
                forall|k: int|
                    0 <= k < i ==> (#[trigger] self.seen_view()[k].worker_id@) != worker_id@,
            decreases n - i,
        {
            let found = self.seen[i].worker_id == wid;
            if found {
                proof {
                    lemma_worker_index_found(self.seen_view(), worker_id@, i as int);
                }
                return Some(self.seen[i].last_seen_ms);
            }
            i = i + 1;
        }
        proof {
            lemma_worker_index_range(self.seen_view(), worker_id@);
            if worker_index(self.seen_view(), worker_id@) >= 0 {
                let j = worker_index(self.seen_view(), worker_id@);
                assert(self.seen_view()[j].worker_id@ == worker_id@);
            }
        }
        None
    }

    /// Updates `worker_id`'s last-seen time to `now_ms`, creating the entry
    /// on first contact.
    pub fn record_heartbeat(&mut self, worker_id: &str, now_ms: u64)
        requires
            old(self).wf(),
        ensures
            final(self).wf(),
            Self::heartbeat_step(*old(self), *final(self), worker_id@, now_ms),
    {
        let ghost pre = *self;
        let wid = worker_id.to_owned();
        let n = self.seen.len();
        let mut i: usize = 0;
        while i < n
            invariant
                pre == *old(self),
                pre.wf(),
                *self == pre,
                wid@ == worker_id@,
                n == self.seen_view().len(),
                i <= n,
                forall|k: int| 0 <= k < i ==> (#[trigger] self.seen_view()[k].worker_id@) != worker_id@,
            decreases n - i,
        {
            let found = self.seen[i].worker_id == wid;
            if found {
                proof {
                    lemma_worker_index_found(pre.seen_view(), worker_id@, i as int);
                }
                let e = &mut self.seen[i];
                e.last_seen_ms = now_ms;
                proof {
                    assert forall|k: int|
                        0 <= k < pre.seen_view().len() implies pre.seen_view()[k].worker_id@
                        == (#[trigger] self.seen_view()[k].worker_id@) by {}
                    lemma_worker_index_same(pre.seen_view(), self.seen_view());
                    assert(self.last_seen_of(worker_id@) == Some(now_ms));
                    assert forall|g: Seq<char>| g != worker_id@ implies #[trigger] self.last_seen_of(
                        g,
                    ) == pre.last_seen_of(g) by {
                        lemma_worker_index_range(pre.seen_view(), g);
                        let jg = worker_index(pre.seen_view(), g);
                        if jg >= 0 {
                            assert(jg != i as int);
                            assert(self.seen_view()[jg] == pre.seen_view()[jg]);
                        }
                    }
                }
                return ;
            }
            i = i + 1;
        }
        proof {
            lemma_worker_index_range(pre.seen_view(), worker_id@);
            assert(worker_index(pre.seen_view(), worker_id@) == -1) by {
                if worker_index(pre.seen_view(), worker_id@) >= 0 {
                    let j = worker_index(pre.seen_view(), worker_id@);
                    assert(pre.seen_view()[j].worker_id@ == worker_id@);
                }
            }
        }
        self.seen.push(WorkerSeen { worker_id: wid, last_seen_ms: now_ms });
        proof {
            let ghost e = self.seen_view().last();
            assert(self.seen_view() =~= pre.seen_view().push(e));
            lemma_worker_index_range(pre.seen_view(), worker_id@);
            assert forall|g: Seq<char>| true implies worker_index(self.seen_view(), g) == (if g
                == worker_id@ {
                pre.seen_view().len() as int
            } else {
                worker_index(pre.seen_view(), g)
            }) by {
                lemma_worker_index_range(pre.seen_view(), g);
                lemma_worker_index_push(pre.seen_view(), e, g);
            }
            assert forall|i1: int, i2: int|
                #![trigger self.seen_view()[i1].worker_id@, self.seen_view()[i2].worker_id@]
                0 <= i1 < self.seen_view().len() && 0 <= i2 < self.seen_view().len() && i1 != i2 implies self
                .seen_view()[i1].worker_id@ != self.seen_view()[i2].worker_id@ by {
                if i1 < pre.seen_view().len() && i2 < pre.seen_view().len() {
                    assert(pre.seen_view()[i1].worker_id@ != pre.seen_view()[i2].worker_id@);
                }
            }
            assert(e.worker_id@ == worker_id@);
            assert(worker_index(self.seen_view(), worker_id@) == pre.seen_view().len());
            assert(self.seen_view()[pre.seen_view().len() as int] == e);
            assert(self.last_seen_of(worker_id@) == Some(now_ms));
            assert forall|g: Seq<char>| g != worker_id@ implies #[trigger] self.last_seen_of(g)
                == pre.last_seen_of(g) by {
                lemma_worker_index_range(pre.seen_view(), g);
                let jg = worker_index(pre.seen_view(), g);
                assert(worker_index(self.seen_view(), g) == jg);
                if jg >= 0 {
                    assert(self.seen_view()[jg] == pre.seen_view()[jg]);
                }
            }
        }
    }
}

/// Handles one request under the host's locks, per the coordination
/// contract: a task request draws from the queue and answers `AssignTask`
/// or `NoTaskAvailable`; a result report is recorded, then credited against
/// the queue if — and only if — that (task, worker) pair is still assigned,
/// and always acknowledged; a heartbeat updates the worker's last-seen time
/// and is acknowledged. No other component is touched by any request.
pub fn handle_request(
    tm: &mut TaskManager,
    agg: &mut ResultAggregator,
    live: &mut WorkerLiveness,
    req: Request,
    now_ms: u64,
) -> (resp: Response)
    requires
        old(tm).wf(),
        old(agg).wf(),
        old(live).wf(),
        old(agg).total_spec() < usize::MAX,
    ensures
        final(tm).wf(),
        final(agg).wf(),
        final(live).wf(),
        req matches Request::RequestTask { worker_id } ==> {
            &&& *final(agg) == *old(agg)
            &&& *final(live) == *old(live)
            &&& (resp is NoTaskAvailable <==> old(tm).pending_len() == 0)
            &&& (old(tm).pending_len() == 0 ==> *final(tm) == *old(tm))
            &&& (resp matches Response::AssignTask { task } ==> TaskManager::took_some_pending(
                *old(tm),
                *final(tm),
                task@,
                worker_id@,
                now_ms,
            ))
            &&& (resp is AssignTask || resp is NoTaskAvailable)
        },
        req matches Request::ReportResult { worker_id, result } ==> {
            &&& resp is Ack
            &&& *final(live) == *old(live)
            &&& ResultAggregator::record_step(*old(agg), *final(agg), result@)
            &&& final(tm).pending_view() == old(tm).pending_view()
            &&& (old(tm).has_assignment(result@.task_id, worker_id@)
                ==> final(tm).completed_count_spec() == old(tm).completed_count_spec() + 1)
            &&& (!old(tm).has_assignment(result@.task_id, worker_id@) ==> *final(tm) == *old(tm))
        },
        req matches Request::Heartbeat { worker_id } ==> {
            &&& resp is Ack
            &&& *final(tm) == *old(tm)
            &&& *final(agg) == *old(agg)
            &&& WorkerLiveness::heartbeat_step(*old(live), *final(live), worker_id@, now_ms)
        },
{
    match req {
        Request::RequestTask { worker_id } => {
            match tm.next_task(worker_id.as_str(), now_ms) {
                Some(task) => Response::AssignTask { task },
                None => Response::NoTaskAvailable,
            }
        },
        Request::ReportResult { worker_id, result } => {
            let task_id = result.task_id.clone();
            let recorded = agg.add_result(result);
            let credited = tm.complete(task_id.as_str(), worker_id.as_str());
            proof {
                // both outcomes are deliberate: the ack is a transport
                // acknowledgement, not a correctness guarantee
                assert(recorded is Ok);
                assert(credited is Ok <==> old(tm).has_assignment(task_id@, worker_id@));
            }
            Response::Ack
        },
        Request::Heartbeat { worker_id } => {
            live.record_heartbeat(worker_id.as_str(), now_ms);
            Response::Ack
        },
    }
}

} // verus!
