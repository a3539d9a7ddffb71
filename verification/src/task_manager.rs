//! The task queue: owns every task's lifecycle, applies the distribution
//! strategy, and tracks which worker holds which assignment.

use vstd::prelude::*;

use crate::errors::HiveError;
use crate::rng::random_index_below;
use crate::task::{Task, TaskView};

verus! {

/// Policy for choosing which pending task is handed out next. Chosen once at
/// host startup and applied uniformly to every draw.
#[derive(Debug, Clone, Copy, PartialEq, Eq, Structural)]
pub enum DistributionStrategy {
    /// The task queued earliest.
    Fifo,
    /// The task queued latest.
    Lifo,
    /// A uniform draw over the current pending set.
    Random,
}

/// Lifecycle state of one task. A task is in exactly one state at all times;
/// the only transitions are `Pending -> Assigned` on a draw,
/// `Assigned -> Completed` on a successful report, and `Assigned -> Pending`
/// when a stale assignment is reclaimed.
#[derive(Debug)]
pub enum TaskStatus {
    Pending,
    Assigned { worker_id: String, assigned_at_ms: u64 },
    Completed,
    Failed,
}

/// One task together with its current status.
#[derive(Debug)]
pub struct TaskEntry {
    pub task: Task,
    pub status: TaskStatus,
}

/// Holds when `status` records an assignment to `worker` made at `at_ms`.
pub open spec fn status_assigned_to(status: TaskStatus, worker: Seq<char>, at_ms: u64) -> bool {
    status matches TaskStatus::Assigned { worker_id, assigned_at_ms } && worker_id@ == worker
        && assigned_at_ms == at_ms
}

/// An assignment made at `assigned_at_ms` has exceeded `max_age_ms` by the
/// time `now_ms`.
pub open spec fn is_stale(assigned_at_ms: u64, max_age_ms: u64, now_ms: u64) -> bool {
    assigned_at_ms + max_age_ms < now_ms
}

/// The entry holds an assignment whose age exceeds `max_age_ms` at `now_ms`.
pub open spec fn stale_assigned(e: TaskEntry, max_age_ms: u64, now_ms: u64) -> bool {
    e.status matches TaskStatus::Assigned { worker_id, assigned_at_ms } && is_stale(
        assigned_at_ms,
        max_age_ms,
        now_ms,
    )
}

/// How many entries of `s` are `Completed`.
pub open spec fn count_completed(s: Seq<TaskEntry>) -> int
    decreases s.len(),
{
    if s.len() == 0 {
        0
    } else {
        count_completed(s.drop_last()) + if s.last().status is Completed {
            1int
        } else {
            0int
        }
    }
}

/// The indices of the entries of `s` that hold a stale assignment, in
/// ascending order: exactly the entries a reclaim sweep returns to the
/// pending queue.
pub open spec fn reclaimed_indices(s: Seq<TaskEntry>, max_age_ms: u64, now_ms: u64) -> Seq<int>
    decreases s.len(),
{
    if s.len() == 0 {
        Seq::empty()
    } else {
        reclaimed_indices(s.drop_last(), max_age_ms, now_ms) + if stale_assigned(
            s.last(),
            max_age_ms,
            now_ms,
        ) {
            seq![s.len() - 1]
        } else {
            Seq::empty()
        }
    }
}

proof fn lemma_count_completed_le_len(s: Seq<TaskEntry>)
    ensures
        0 <= count_completed(s) <= s.len(),
    decreases s.len(),
{
    if s.len() > 0 {
        lemma_count_completed_le_len(s.drop_last());
    }
}

proof fn lemma_count_completed_update(s: Seq<TaskEntry>, j: int, e: TaskEntry)
    requires
        0 <= j < s.len(),
    ensures
        count_completed(s.update(j, e)) == count_completed(s) + (if e.status is Completed {
            1int
        } else {
            0int
        }) - (if s[j].status is Completed {
            1int
        } else {
            0int
        }),
    decreases s.len(),
{
    if s.len() > 0 {
        if j == s.len() - 1 {
            assert(s.update(j, e).drop_last() =~= s.drop_last());
        } else {
            lemma_count_completed_update(s.drop_last(), j, e);
            assert(s.update(j, e).drop_last() =~= s.drop_last().update(j, e));
        }
    }
}

proof fn lemma_count_completed_push(s: Seq<TaskEntry>, e: TaskEntry)
    ensures
        count_completed(s.push(e)) == count_completed(s) + (if e.status is Completed {
            1int
        } else {
            0int
        }),
{
    assert(s.push(e).drop_last() =~= s);
}

/// If some entry of `s` is not `Completed`, fewer than `s.len()` are.
proof fn lemma_count_completed_strict(s: Seq<TaskEntry>, j: int)
    requires
        0 <= j < s.len(),
        !(s[j].status is Completed),
    ensures
        count_completed(s) < s.len(),
    decreases s.len(),
{
    if j == s.len() - 1 {
        lemma_count_completed_le_len(s.drop_last());
    } else {
        lemma_count_completed_strict(s.drop_last(), j);
    }
}

/// Reads the distribution-strategy selector: exactly `fifo`, `lifo` or
/// `random` (already lower-cased by the caller); anything else is a
/// configuration error.
pub fn parse_strategy(s: &str) -> (r: Result<DistributionStrategy, HiveError>)
    ensures
        s@ == "fifo"@ ==> r == Ok::<DistributionStrategy, HiveError>(DistributionStrategy::Fifo),
        s@ == "lifo"@ ==> r == Ok::<DistributionStrategy, HiveError>(DistributionStrategy::Lifo),
        s@ == "random"@ ==> r == Ok::<DistributionStrategy, HiveError>(
            DistributionStrategy::Random,
        ),
        s@ != "fifo"@ && s@ != "lifo"@ && s@ != "random"@ ==> r == Err::<
            DistributionStrategy,
            HiveError,
        >(HiveError::ConfigError),
{
    proof {
        reveal_strlit("fifo");
        reveal_strlit("lifo");
        reveal_strlit("random");
        assert("fifo"@[0] == 'f' && "lifo"@[0] == 'l' && "random"@[0] == 'r');
        assert("fifo"@ != "lifo"@ && "fifo"@ != "random"@ && "lifo"@ != "random"@);
    }
    let owned = s.to_owned();
    if owned == "fifo".to_owned() {
        Ok(DistributionStrategy::Fifo)
    } else if owned == "lifo".to_owned() {
        Ok(DistributionStrategy::Lifo)
    } else if owned == "random".to_owned() {
        Ok(DistributionStrategy::Random)
    } else {
        Err(HiveError::ConfigError)
    }
}

/// The host's task queue.
pub struct TaskManager {
    strategy: DistributionStrategy,
    entries: Vec<TaskEntry>,
    pending: Vec<usize>,
    completed_count: usize,
}

impl TaskManager {
    /// Every task ever seeded, in seeding order, with its current status.
    pub closed spec fn entries_view(self) -> Seq<TaskEntry> {
        self.entries@
    }

    /// The pending queue: indices into `entries_view`, front first.
    pub closed spec fn pending_view(self) -> Seq<int> {
        self.pending@.map_values(|i: usize| i as int)
    }

    /// The strategy fixed at construction.
    pub closed spec fn strategy_spec(self) -> DistributionStrategy {
        self.strategy
    }

    /// The completed-task counter.
    pub closed spec fn completed_count_spec(self) -> int {
        self.completed_count as int
    }

    /// The total number of seeded tasks.
    pub open spec fn total_tasks_spec(self) -> int {
        self.entries_view().len() as int
    }

    /// How many tasks are pending right now.
    pub open spec fn pending_len(self) -> int {
        self.pending_view().len() as int
    }

    /// The task at position `k` of the pending queue.
    pub open spec fn pending_task(self, k: int) -> TaskView {
        self.entries_view()[self.pending_view()[k]].task@
    }

    /// The pending-queue half of well-formedness: positions are in range,
    /// point at `Pending` entries, and never repeat.
    pub open spec fn pending_wf(self) -> bool {
        &&& forall|k: int|
            0 <= k < self.pending_len() ==> 0 <= #[trigger] self.pending_view()[k]
                < self.entries_view().len()
        &&& forall|k: int|
            0 <= k < self.pending_len()
                ==> (#[trigger] self.entries_view()[self.pending_view()[k]].status) is Pending
        &&& forall|k1: int, k2: int|
            #![trigger self.pending_view()[k1], self.pending_view()[k2]]
            0 <= k1 < self.pending_len() && 0 <= k2 < self.pending_len() && k1 != k2
                ==> self.pending_view()[k1] != self.pending_view()[k2]
    }

    /// Well-formedness: the pending queue lists, without duplicates, exactly
    /// the entries whose status is `Pending`, and the completed counter
    /// agrees with the statuses.
    pub open spec fn wf(self) -> bool {
        &&& self.pending_wf()
        &&& forall|j: int|
            0 <= j < self.entries_view().len() && (#[trigger] self.entries_view()[j].status)
                is Pending ==> self.pending_view().contains(j)
        &&& self.completed_count_spec() == count_completed(self.entries_view())
    }

    /// Entry `j` exists and is currently assigned to `worker` under `task_id`.
    pub open spec fn entry_assigned_matches(
        self,
        j: int,
        task_id: Seq<char>,
        worker: Seq<char>,
    ) -> bool {
        &&& 0 <= j < self.entries_view().len()
        &&& self.entries_view()[j].task@.id == task_id
        &&& self.entries_view()[j].status matches TaskStatus::Assigned {
            worker_id,
            assigned_at_ms,
        } && worker_id@ == worker
    }

    /// The pair (`task_id`, `worker`) is currently assigned.
    pub open spec fn has_assignment(self, task_id: Seq<char>, worker: Seq<char>) -> bool {
        exists|j: int| self.entry_assigned_matches(j, task_id, worker)
    }

    /// One draw: position `pos` of the pending queue of `pre` was removed,
    /// its task handed out as `t` and marked assigned to `worker` at
    /// `now_ms`; every other entry is untouched.
    pub open spec fn took_pending(
        pre: TaskManager,
        post: TaskManager,
        t: TaskView,
        worker: Seq<char>,
        now_ms: u64,
        pos: int,
    ) -> bool {
        &&& 0 <= pos < pre.pending_len()
        &&& t == pre.pending_task(pos)
        &&& post.pending_view() == pre.pending_view().remove(pos)
        &&& post.entries_view().len() == pre.entries_view().len()
        &&& forall|j: int|
            0 <= j < pre.entries_view().len() && j != pre.pending_view()[pos]
                ==> post.entries_view()[j] == #[trigger] pre.entries_view()[j]
        &&& post.entries_view()[pre.pending_view()[pos]].task@ == t
        &&& status_assigned_to(
            post.entries_view()[pre.pending_view()[pos]].status,
            worker,
            now_ms,
        )
    }

    /// One draw at some position of the pending queue.
    pub open spec fn took_some_pending(
        pre: TaskManager,
        post: TaskManager,
        t: TaskView,
        worker: Seq<char>,
        now_ms: u64,
    ) -> bool {
        exists|pos: int| Self::took_pending(pre, post, t, worker, now_ms, pos)
    }

    /// Builds an empty queue that will serve tasks under `strategy`.
    pub fn new(strategy: DistributionStrategy) -> (r: TaskManager)
        ensures
            r.wf(),
            r.strategy_spec() == strategy,
            r.total_tasks_spec() == 0,
            r.pending_len() == 0,
            r.completed_count_spec() == 0,
    {
        TaskManager { strategy, entries: Vec::new(), pending: Vec::new(), completed_count: 0 }
    }

    /// A freshly seeded entry for `graph`: pending, with the given trial
    /// number and configuration blob.
    pub open spec fn seeded_entry(e: TaskEntry, graph: Seq<char>, run: int, config: Seq<char>) -> bool {
        &&& e.status is Pending
        &&& e.task@.graph_id == graph
        &&& e.task@.run_number == run
        &&& e.task@.ag_config == config
    }

    /// Appends `trials` new pending tasks for `graph_id`, with run numbers
    /// `1..=trials`, all sharing `ag_config`. Earlier tasks and the pending
    /// order are untouched; the new tasks queue up behind them in trial
    /// order.
    pub fn add_new_graph_tasks(&mut self, graph_id: &str, trials: u32, ag_config: &str)
        requires
            old(self).wf(),
            old(self).total_tasks_spec() + trials <= usize::MAX,
        ensures
            final(self).wf(),
            final(self).strategy_spec() == old(self).strategy_spec(),
            final(self).completed_count_spec() == old(self).completed_count_spec(),
            final(self).total_tasks_spec() == old(self).total_tasks_spec() + trials,
            final(self).entries_view().subrange(0, old(self).total_tasks_spec())
                == old(self).entries_view(),
            forall|t: int|
                0 <= t < trials ==> Self::seeded_entry(
                    #[trigger] final(self).entries_view()[old(self).total_tasks_spec() + t],
                    graph_id@,
                    t + 1,
                    ag_config@,
                ),
            final(self).pending_view() == old(self).pending_view() + Seq::new(
                trials as nat,
                |t: int| old(self).total_tasks_spec() + t,
            ),
    {
        let ghost old_entries = self.entries@;
        let ghost old_pending = self.pending@;
        let mut t: u32 = 0;
        while t < trials
            invariant
                self.wf(),
                t <= trials,
                self.strategy == old(self).strategy_spec(),
                self.completed_count_spec() == old(self).completed_count_spec(),
                old_entries.len() + trials <= usize::MAX,
                self.entries@.len() == old_entries.len() + t,
                self.entries@.subrange(0, old_entries.len() as int) =~= old_entries,
                forall|k: int|
                    0 <= k < t ==> Self::seeded_entry(
                        #[trigger] self.entries@[old_entries.len() + k],
                        graph_id@,
                        k + 1,
                        ag_config@,
                    ),
                self.pending_view() =~= old(self).pending_view() + Seq::new(
                    t as nat,
                    |k: int| old_entries.len() + k,
                ),
            decreases trials - t,
        {
            let ghost pre = *self;
            let task = Task::new(graph_id.to_owned(), t + 1, ag_config.to_owned());
            let idx = self.entries.len();
            self.entries.push(TaskEntry { task, status: TaskStatus::Pending });
            self.pending.push(idx);
            proof {
                lemma_count_completed_push(
                    pre.entries@,
                    self.entries@[pre.entries@.len() as int],
                );
                assert(self.entries@.drop_last() =~= pre.entries@);
                assert(self.pending_view() =~= pre.pending_view().push(idx as int));
                assert forall|j: int|
                    0 <= j < self.entries@.len() && (#[trigger] self.entries@[j].status)
                        is Pending implies self.pending_view().contains(j) by {
                    if j < pre.entries@.len() {
                        assert(pre.entries@[j].status is Pending);
                        let k = choose|k: int|
                            0 <= k < pre.pending_view().len() && pre.pending_view()[k] == j;
                        assert(self.pending_view()[k] == j);
                    } else {
                        assert(self.pending_view()[self.pending_view().len() - 1] == j);
                    }
                }
                assert(self.entries@.subrange(0, old_entries.len() as int) =~= old_entries);
            }
            t = t + 1;
        }
        proof {
            assert(final(self).entries_view().subrange(0, old(self).total_tasks_spec())
                =~= old(self).entries_view());
            assert(final(self).pending_view() =~= old(self).pending_view() + Seq::new(
                trials as nat,
                |k: int| old(self).total_tasks_spec() + k,
            ));
        }
    }

    /// Removes one task from the pending queue under the configured strategy,
    /// marks it assigned to `worker_id` at `now_ms`, and returns it. Returns
    /// `None` exactly when nothing is pending — the normal "no work right
    /// now" signal, not an error.
    ///
    /// Fifo draws the front of the queue, Lifo the back, Random a uniformly
    /// chosen position.
    #[verifier::rlimit(60)]
    pub fn next_task(&mut self, worker_id: &str, now_ms: u64) -> (r: Option<Task>)
        requires
            old(self).wf(),
        ensures
            final(self).wf(),
            final(self).strategy_spec() == old(self).strategy_spec(),
            final(self).total_tasks_spec() == old(self).total_tasks_spec(),
            final(self).completed_count_spec() == old(self).completed_count_spec(),
            r is None <==> old(self).pending_len() == 0,
            r is None ==> *final(self) == *old(self),
            r matches Some(task) ==> Self::took_some_pending(
                *old(self),
                *final(self),
                task@,
                worker_id@,
                now_ms,
            ),
            old(self).strategy_spec() is Fifo ==> (r matches Some(task)
                ==> Self::took_pending(*old(self), *final(self), task@, worker_id@, now_ms, 0)),
            old(self).strategy_spec() is Lifo ==> (r matches Some(task)
                ==> Self::took_pending(
                *old(self),
                *final(self),
                task@,
                worker_id@,
                now_ms,
                old(self).pending_len() - 1,
            )),
    {
        let n = self.pending.len();
        if n == 0 {
            return None;
        }
        let pos: usize = match self.strategy {
            DistributionStrategy::Fifo => 0,
            DistributionStrategy::Lifo => n - 1,
            DistributionStrategy::Random => random_index_below(n),
        };
        let ghost pre = *self;
        let j: usize = self.pending.remove(pos);
        proof {
            let pv = pre.pending_view();
            assert(pv[pos as int] == pre.pending@[pos as int] as int);
            assert(0 <= pv[pos as int] < pre.entries@.len());
            assert(pre.entries@[pv[pos as int]].status is Pending);
            assert(j as int == pv[pos as int]);
        }
        assert(j < self.entries.len());
        let assigned_task = self.entries[j].task.duplicate();
        let returned_task = assigned_task.duplicate();
        self.entries[j] = TaskEntry {
            task: assigned_task,
            status: TaskStatus::Assigned { worker_id: worker_id.to_owned(), assigned_at_ms: now_ms },
        };
        proof {
            let jj = j as int;
            let pv = pre.pending_view();
            assert(self.pending_view() =~= pv.remove(pos as int));
            lemma_count_completed_update(pre.entries@, jj, self.entries@[jj]);
            // the removed entry was pending, hence not completed
            assert(pre.entries@[jj].status is Pending);
            // well-formedness of the new state
            assert forall|k: int|
                0 <= k < self.pending_view().len() implies 0 <= #[trigger] self.pending_view()[k]
                < self.entries_view().len() && self.entries_view()[self.pending_view()[k]].status
                is Pending by {
                let k0 = if k < pos { k } else { k + 1 };
                assert(self.pending_view()[k] == pv[k0]);
                assert(pv[k0] != jj);
            }
            assert forall|j2: int|
                0 <= j2 < self.entries_view().len() && (#[trigger] self.entries_view()[j2].status)
                    is Pending implies self.pending_view().contains(j2) by {
                assert(j2 != jj);
                assert(pre.entries@[j2].status is Pending);
                let k = choose|k: int| 0 <= k < pv.len() && pv[k] == j2;
                assert(k != pos);
                let k2 = if k < pos { k } else { k - 1 };
                assert(self.pending_view()[k2] == j2);
            }
            assert(Self::took_pending(pre, *self, returned_task@, worker_id@, now_ms, pos as int));
            assert(Self::took_some_pending(pre, *self, returned_task@, worker_id@, now_ms));
        }
        Some(returned_task)
    }

    /// Marks the task `task_id` completed, provided it is currently assigned
    /// to exactly `worker_id`. A report from any other pairing — a straggler
    /// whose assignment was reclaimed, or a worker that never held the task —
    /// fails with `UnknownAssignment` and changes nothing.
    pub fn complete(&mut self, task_id: &str, worker_id: &str) -> (r: Result<(), HiveError>)
        requires
            old(self).wf(),
        ensures
            final(self).wf(),
            final(self).strategy_spec() == old(self).strategy_spec(),
            final(self).total_tasks_spec() == old(self).total_tasks_spec(),
            final(self).pending_view() == old(self).pending_view(),
            r is Ok <==> old(self).has_assignment(task_id@, worker_id@),
            r is Err ==> r == Err::<(), HiveError>(HiveError::UnknownAssignment) && *final(self)
                == *old(self),
            r is Ok ==> final(self).completed_count_spec() == old(self).completed_count_spec() + 1
                && exists|j: int|
                {
                    &&& old(self).entry_assigned_matches(j, task_id@, worker_id@)
                    &&& final(self).entries_view() == old(self).entries_view().update(
                        j,
                        (TaskEntry {
                            task: old(self).entries_view()[j].task,
                            status: TaskStatus::Completed,
                        }),
                    )
                },
    {
        let tid = task_id.to_owned();
        let wid = worker_id.to_owned();
        let n = self.entries.len();
        let mut i: usize = 0;
        while i < n
            invariant
                old(self).wf(),
                *self == *old(self),
                tid@ == task_id@,
                wid@ == worker_id@,
                i <= n,
                n == self.entries@.len(),
                forall|k: int|
                    0 <= k < i ==> !old(self).entry_assigned_matches(k, task_id@, worker_id@),
            decreases n - i,
        {
            let id_matches = self.entries[i].task.id == tid;
            if id_matches {
                let worker_matches = match &self.entries[i].status {
                    TaskStatus::Assigned { worker_id: w, assigned_at_ms: _ } => *w == wid,
                    _ => false,
                };
                if worker_matches {
                    let ghost pre = *self;
                    assert(pre.entry_assigned_matches(i as int, task_id@, worker_id@));
                    let e = &mut self.entries[i];
                    e.status = TaskStatus::Completed;
                    proof {
                        lemma_count_completed_strict(pre.entries@, i as int);
                        lemma_count_completed_update(pre.entries@, i as int, self.entries@[i as int]);
                    }
                    self.completed_count = self.completed_count + 1;
                    proof {
                        let jj = i as int;
                        assert(self.entries@ =~= pre.entries@.update(
                            jj,
                            (TaskEntry { task: pre.entries@[jj].task, status: TaskStatus::Completed }),
                        ));
                        assert forall|k: int|
                            0 <= k < self.pending_view().len() implies (
                        #[trigger] self.entries_view()[self.pending_view()[k]].status) is Pending by {
                            assert(pre.entries@[pre.pending_view()[k]].status is Pending);
                            assert(pre.pending_view()[k] != jj);
                        }
                        assert forall|j2: int|
                            0 <= j2 < self.entries_view().len() && (
                            #[trigger] self.entries_view()[j2].status) is Pending implies self
                            .pending_view().contains(j2) by {
                            assert(pre.entries@[j2].status is Pending);
                        }
                    }
                    return Ok(());
                }
            }
            i = i + 1;
        }
        Err(HiveError::UnknownAssignment)
    }

    /// Returns to the pending queue exactly the assigned tasks whose
    /// assignment age exceeds `max_age_ms` at `now_ms` — the sweep by which a
    /// dead or stalled worker's work is redistributed. Every other entry is
    /// untouched; the reclaimed tasks queue up behind the already-pending
    /// ones in seeding order.
    pub fn reclaim_stale(&mut self, max_age_ms: u64, now_ms: u64)
        requires
            old(self).wf(),
        ensures
            final(self).wf(),
            final(self).strategy_spec() == old(self).strategy_spec(),
            final(self).total_tasks_spec() == old(self).total_tasks_spec(),
            final(self).completed_count_spec() == old(self).completed_count_spec(),
            forall|j: int|
                0 <= j < old(self).entries_view().len() ==> if stale_assigned(
                    #[trigger] old(self).entries_view()[j],
                    max_age_ms,
                    now_ms,
                ) {
                    final(self).entries_view()[j] == (TaskEntry {
                        task: old(self).entries_view()[j].task,
                        status: TaskStatus::Pending,
                    })
                } else {
                    final(self).entries_view()[j] == old(self).entries_view()[j]
                },
            final(self).pending_view() == old(self).pending_view() + reclaimed_indices(
                old(self).entries_view(),
                max_age_ms,
                now_ms,
            ),
    {
        let n = self.entries.len();
        let mut i: usize = 0;
        while i < n
            invariant
                self.wf(),
                i <= n,
                n == self.entries@.len(),
                n == old(self).entries_view().len(),
                self.strategy_spec() == old(self).strategy_spec(),
                self.completed_count_spec() == old(self).completed_count_spec(),
                forall|j: int|
                    0 <= j < i ==> if stale_assigned(
                        #[trigger] old(self).entries_view()[j],
                        max_age_ms,
                        now_ms,
                    ) {
                        self.entries_view()[j] == (TaskEntry {
                            task: old(self).entries_view()[j].task,
                            status: TaskStatus::Pending,
                        })
                    } else {
                        self.entries_view()[j] == old(self).entries_view()[j]
                    },
                forall|j: int|
                    i <= j < n ==> self.entries_view()[j] == old(self).entries_view()[j],
                self.pending_view() =~= old(self).pending_view() + reclaimed_indices(
                    old(self).entries_view().take(i as int),
                    max_age_ms,
                    now_ms,
                ),
            decreases n - i,
        {
            let ghost pre = *self;
            let is_stale_now = match &self.entries[i].status {
                TaskStatus::Assigned { worker_id: _, assigned_at_ms } => {
                    // assigned_at + max_age < now, avoiding overflow
                    *assigned_at_ms < now_ms && now_ms - *assigned_at_ms > max_age_ms
                },
                _ => false,
            };
            proof {
                let ghost oe = old(self).entries_view();
                assert(oe.take(i as int + 1).drop_last() =~= oe.take(i as int));
                assert(oe.take(i as int + 1).last() == oe[i as int]);
            }
            if is_stale_now {
                assert(stale_assigned(pre.entries@[i as int], max_age_ms, now_ms));
                let task = self.entries[i].task.duplicate();
                let e = &mut self.entries[i];
                e.status = TaskStatus::Pending;
                self.pending.push(i);
                proof {
                    let jj = i as int;
                    lemma_count_completed_update(pre.entries@, jj, self.entries@[jj]);
                    assert(self.pending_view() =~= pre.pending_view().push(jj));
                    // the reclaimed entry was assigned, so it was not listed as pending
                    assert forall|k: int|
                        0 <= k < pre.pending_view().len() implies pre.pending_view()[k] != jj by {
                        assert(pre.entries@[pre.pending_view()[k]].status is Pending);
                    }
                    assert forall|k: int|
                        0 <= k < self.pending_view().len() implies 0 <= #[trigger] self
                        .pending_view()[k] < self.entries_view().len() && self.entries_view()[self
                        .pending_view()[k]].status is Pending by {
                        if k < pre.pending_view().len() {
                            assert(pre.entries@[pre.pending_view()[k]].status is Pending);
                        } else {
                            assert(self.pending_view()[k] == jj);
                        }
                    }
                    assert forall|j2: int|
                        0 <= j2 < self.entries_view().len() && (
                        #[trigger] self.entries_view()[j2].status) is Pending implies self
                        .pending_view().contains(j2) by {
                        if j2 == jj {
                            assert(self.pending_view()[self.pending_view().len() - 1] == j2);
                        } else {
                            assert(pre.entries@[j2].status is Pending);
                            let k = choose|k: int|
                                0 <= k < pre.pending_view().len() && pre.pending_view()[k] == j2;
                            assert(self.pending_view()[k] == j2);
                        }
                    }
                    assert(self.entries@[jj] == (TaskEntry {
                        task: old(self).entries_view()[jj].task,
                        status: TaskStatus::Pending,
                    }));
                }
            }
            i = i + 1;
        }
        proof {
            assert(old(self).entries_view().take(n as int) =~= old(self).entries_view());
            assert(final(self).pending_view() =~= old(self).pending_view() + reclaimed_indices(
                old(self).entries_view(),
                max_age_ms,
                now_ms,
            ));
        }
    }

    /// No position of the pending queue repeats a task identifier.
    pub open spec fn distinct_pending_ids(self) -> bool {
        forall|k1: int, k2: int|
            #![trigger self.pending_task(k1), self.pending_task(k2)]
            0 <= k1 < self.pending_len() && 0 <= k2 < self.pending_len() && k1 != k2
                ==> self.pending_task(k1).id != self.pending_task(k2).id
    }

    /// Mutual exclusion of assignment: two successive successful draws never
    /// hand out the same task. The first draw removes its task from the
    /// pending queue and leaves it assigned, so the second draw — whatever
    /// the strategy, worker or time — returns a task with a different
    /// identifier, and the first task is still assigned when it does.
    ///
    /// The hypothesis that the queued identifiers are pairwise distinct holds
    /// whenever the identifier generator did not repeat itself.
    pub proof fn lemma_next_task_mutual_exclusion(
        s0: TaskManager,
        s1: TaskManager,
        s2: TaskManager,
        t1: TaskView,
        t2: TaskView,
        w1: Seq<char>,
        w2: Seq<char>,
        n1: u64,
        n2: u64,
        p1: int,
        p2: int,
    )
        requires
            s0.wf(),
            s0.distinct_pending_ids(),
            Self::took_pending(s0, s1, t1, w1, n1, p1),
            Self::took_pending(s1, s2, t2, w2, n2, p2),
        ensures
            t1.id != t2.id,
            s1.has_assignment(t1.id, w1),
            s2.has_assignment(t1.id, w1),
    {
        let j1 = s0.pending_view()[p1];
        // the first draw's entry is assigned to w1 in s1
        assert(s1.entry_assigned_matches(j1, t1.id, w1));
        // the second draw picks a task that was already pending in s0, at a
        // position other than p1
        let q = if p2 < p1 {
            p2
        } else {
            p2 + 1
        };
        assert(s1.pending_view()[p2] == s0.pending_view()[q]);
        assert(s0.pending_view()[q] != j1);
        assert(s1.entries_view()[s0.pending_view()[q]] == s0.entries_view()[s0.pending_view()[q]]);
        assert(t2 == s0.pending_task(q));
        assert(t1 == s0.pending_task(p1));
        assert(t1.id != t2.id);
        // and the first task stays assigned through the second draw
        let j2 = s1.pending_view()[p2];
        assert(j2 != j1);
        assert(s2.entries_view()[j1] == s1.entries_view()[j1]);
        assert(s2.entry_assigned_matches(j1, t1.id, w1));
    }

    /// `id` identifies some pending task.
    pub open spec fn pending_has_id(self, id: Seq<char>) -> bool {
        exists|k: int| 0 <= k < self.pending_len() && (#[trigger] self.pending_task(k)).id == id
    }

    /// One draw preserves the pending queue's shape and distinct
    /// identifiers, removes the drawn identifier from the pending set, and
    /// introduces no identifier that was not already pending.
    pub proof fn lemma_draw_step(
        pre: TaskManager,
        post: TaskManager,
        t: TaskView,
        worker: Seq<char>,
        now_ms: u64,
        pos: int,
    )
        requires
            pre.pending_wf(),
            pre.distinct_pending_ids(),
            Self::took_pending(pre, post, t, worker, now_ms, pos),
        ensures
            post.pending_wf(),
            post.distinct_pending_ids(),
            pre.pending_has_id(t.id),
            !post.pending_has_id(t.id),
            forall|id: Seq<char>| #[trigger] post.pending_has_id(id) ==> pre.pending_has_id(id),
    {
        let j = pre.pending_view()[pos];
        assert(pre.pending_task(pos).id == t.id);
        assert(pre.pending_has_id(t.id));
        // position k of the new queue is position k or k + 1 of the old one,
        // and never the drawn entry
        assert forall|k: int|
            0 <= k < post.pending_len() implies 0 <= #[trigger] post.pending_view()[k]
            < post.entries_view().len() && post.entries_view()[post.pending_view()[k]].status
            is Pending && post.pending_task(k) == pre.pending_task(
            if k < pos {
                k
            } else {
                k + 1
            },
        ) by {
            let k0 = if k < pos {
                k
            } else {
                k + 1
            };
            assert(post.pending_view()[k] == pre.pending_view()[k0]);
            assert(pre.pending_view()[k0] != j);
            assert(post.entries_view()[pre.pending_view()[k0]] == pre.entries_view()[pre.pending_view()[k0]]);
        }
        assert forall|k1: int, k2: int|
            #![trigger post.pending_view()[k1], post.pending_view()[k2]]
            0 <= k1 < post.pending_len() && 0 <= k2 < post.pending_len() && k1 != k2 implies post
            .pending_view()[k1] != post.pending_view()[k2] by {
            let k01 = if k1 < pos {
                k1
            } else {
                k1 + 1
            };
            let k02 = if k2 < pos {
                k2
            } else {
                k2 + 1
            };
            assert(post.pending_view()[k1] == pre.pending_view()[k01]);
            assert(post.pending_view()[k2] == pre.pending_view()[k02]);
            assert(k01 != k02);
        }
        assert forall|k1: int, k2: int|
            #![trigger post.pending_task(k1), post.pending_task(k2)]
            0 <= k1 < post.pending_len() && 0 <= k2 < post.pending_len() && k1 != k2 implies post
            .pending_task(k1).id != post.pending_task(k2).id by {
            let k01 = if k1 < pos {
                k1
            } else {
                k1 + 1
            };
            let k02 = if k2 < pos {
                k2
            } else {
                k2 + 1
            };
            assert(post.pending_task(k1) == pre.pending_task(k01));
            assert(post.pending_task(k2) == pre.pending_task(k02));
            assert(k01 != k02);
            assert(pre.pending_task(k01).id != pre.pending_task(k02).id);
        }
        assert(!post.pending_has_id(t.id)) by {
            if post.pending_has_id(t.id) {
                let k = choose|k: int|
                    0 <= k < post.pending_len() && (#[trigger] post.pending_task(k)).id == t.id;
                let k0 = if k < pos {
                    k
                } else {
                    k + 1
                };
                assert(post.pending_task(k) == pre.pending_task(k0));
                assert(pre.pending_task(k0).id == pre.pending_task(pos).id);
                assert(k0 != pos);
            }
        }
        assert forall|id: Seq<char>| #[trigger] post.pending_has_id(id) implies pre.pending_has_id(
            id,
        ) by {
            let k = choose|k: int|
                0 <= k < post.pending_len() && (#[trigger] post.pending_task(k)).id == id;
            let k0 = if k < pos {
                k
            } else {
                k + 1
            };
            assert(post.pending_task(k) == pre.pending_task(k0));
            assert((pre.pending_task(k0)).id == id);
        }
    }

    /// Whether `states`, `tasks`, `workers`, `times` and `positions`
    /// describe a chain of draws: draw `i` takes `tasks[i]` from `states[i]`
    /// to `states[i + 1]`.
    pub open spec fn draw_chain(
        states: Seq<TaskManager>,
        tasks: Seq<TaskView>,
        workers: Seq<Seq<char>>,
        times: Seq<u64>,
        positions: Seq<int>,
    ) -> bool {
        &&& states.len() == tasks.len() + 1
        &&& workers.len() == tasks.len()
        &&& times.len() == tasks.len()
        &&& positions.len() == tasks.len()
        &&& forall|i: int|
            0 <= i < tasks.len() ==> Self::took_pending(
                #[trigger] states[i],
                states[i + 1],
                tasks[i],
                workers[i],
                times[i],
                positions[i],
            )
    }

    /// Along a chain of draws the queue keeps its shape and its distinct
    /// identifiers.
    proof fn lemma_chain_shape(
        states: Seq<TaskManager>,
        tasks: Seq<TaskView>,
        workers: Seq<Seq<char>>,
        times: Seq<u64>,
        positions: Seq<int>,
        b: int,
    )
        requires
            Self::draw_chain(states, tasks, workers, times, positions),
            states[0].pending_wf(),
            states[0].distinct_pending_ids(),
            0 <= b <= tasks.len(),
        ensures
            states[b].pending_wf(),
            states[b].distinct_pending_ids(),
        decreases b,
    {
        if b > 0 {
            Self::lemma_chain_shape(states, tasks, workers, times, positions, b - 1);
            Self::lemma_draw_step(
                states[b - 1],
                states[b],
                tasks[b - 1],
                workers[b - 1],
                times[b - 1],
                positions[b - 1],
            );
        }
    }

    /// Once drawn at step `a`, an identifier is gone from the pending set of
    /// every later state of the chain.
    proof fn lemma_chain_keeps_id_out(
        states: Seq<TaskManager>,
        tasks: Seq<TaskView>,
        workers: Seq<Seq<char>>,
        times: Seq<u64>,
        positions: Seq<int>,
        a: int,
        b: int,
    )
        requires
            Self::draw_chain(states, tasks, workers, times, positions),
            states[0].pending_wf(),
            states[0].distinct_pending_ids(),
            0 <= a < b <= tasks.len(),
        ensures
            !states[b].pending_has_id(tasks[a].id),
        decreases b,
    {
        Self::lemma_chain_shape(states, tasks, workers, times, positions, b - 1);
        Self::lemma_draw_step(
            states[b - 1],
            states[b],
            tasks[b - 1],
            workers[b - 1],
            times[b - 1],
            positions[b - 1],
        );
        if b - 1 > a {
            Self::lemma_chain_keeps_id_out(states, tasks, workers, times, positions, a, b - 1);
        }
    }

    /// Mutual exclusion of assignment over any sequence of draws: as long as
    /// the queued identifiers are pairwise distinct and no reclaim happens in
    /// between, no two draws of the sequence hand out the same identifier.
    pub proof fn lemma_draw_sequence_mutual_exclusion(
        states: Seq<TaskManager>,
        tasks: Seq<TaskView>,
        workers: Seq<Seq<char>>,
        times: Seq<u64>,
        positions: Seq<int>,
        a: int,
        b: int,
    )
        requires
            Self::draw_chain(states, tasks, workers, times, positions),
            states[0].wf(),
            states[0].distinct_pending_ids(),
            0 <= a < b < tasks.len(),
        ensures
            tasks[a].id != tasks[b].id,
    {
        Self::lemma_chain_keeps_id_out(states, tasks, workers, times, positions, a, b);
        Self::lemma_chain_shape(states, tasks, workers, times, positions, b);
        Self::lemma_draw_step(
            states[b],
            states[b + 1],
            tasks[b],
            workers[b],
            times[b],
            positions[b],
        );
        assert(states[b].pending_has_id(tasks[b].id));
    }

    /// A completed task is out of circulation: a draw touches neither its
    /// entry nor hands it out, so `Completed` never gives way to `Pending`.
    /// The completion step and the reclaim sweep state the same directly in
    /// their contracts: one only moves an `Assigned` entry to `Completed`,
    /// the other only moves stale `Assigned` entries to `Pending`.
    pub proof fn lemma_completed_stays_completed(
        pre: TaskManager,
        post: TaskManager,
        t: TaskView,
        worker: Seq<char>,
        now_ms: u64,
        pos: int,
        j: int,
    )
        requires
            pre.wf(),
            0 <= j < pre.entries_view().len(),
            pre.entries_view()[j].status is Completed,
            Self::took_pending(pre, post, t, worker, now_ms, pos),
        ensures
            post.entries_view()[j] == pre.entries_view()[j],
            !post.pending_view().contains(j),
    {
        assert(pre.entries_view()[pre.pending_view()[pos]].status is Pending);
        assert(pre.pending_view()[pos] != j);
        assert forall|k: int|
            0 <= k < post.pending_view().len() implies post.pending_view()[k] != j by {
            let k0 = if k < pos {
                k
            } else {
                k + 1
            };
            assert(post.pending_view()[k] == pre.pending_view()[k0]);
            assert(pre.entries_view()[pre.pending_view()[k0]].status is Pending);
        }
        if post.pending_view().contains(j) {
            let k = choose|k: int|
                0 <= k < post.pending_view().len() && post.pending_view()[k] == j;
        }
    }

    /// The total number of tasks seeded so far.
    pub fn get_total_tasks(&self) -> (r: usize)
        ensures
            r == self.total_tasks_spec(),
    {
        self.entries.len()
    }

    /// The number of tasks completed so far.
    pub fn get_completed_tasks_count(&self) -> (r: usize)
        ensures
            r == self.completed_count_spec(),
    {
        self.completed_count
    }
}

} // verus!
