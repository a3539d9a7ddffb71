//! Collects completed results grouped by graph and counts them.

use vstd::prelude::*;

use crate::errors::HiveError;
use crate::result::{TaskResult, TaskResultView};

verus! {

/// The results received so far for one graph, in arrival order.
#[derive(Debug)]
pub struct GraphResults {
    pub graph_id: String,
    pub results: Vec<TaskResult>,
}

/// Collects results grouped by graph. Created empty at host startup, grows
/// only by append, never pruned during a run. Duplicates are accepted and
/// counted: the task queue, not the aggregator, is the source of truth for
/// whether a given task is done.
#[derive(Debug)]
pub struct ResultAggregator {
    results_by_graph: Vec<GraphResults>,
    total_results_collected: usize,
}

/// The index of the group for `graph` in `groups`, or `-1` if none exists.
pub open spec fn group_index(groups: Seq<GraphResults>, graph: Seq<char>) -> int
    decreases groups.len(),
{
    if groups.len() == 0 {
        -1
    } else if groups[0].graph_id@ == graph {
        0
    } else {
        let rest = group_index(groups.drop_first(), graph);
        if rest == -1 {
            -1
        } else {
            rest + 1
        }
    }
}

proof fn lemma_group_index_range(groups: Seq<GraphResults>, graph: Seq<char>)
    ensures
        -1 <= group_index(groups, graph) < groups.len(),
        group_index(groups, graph) >= 0 ==> groups[group_index(groups, graph)].graph_id@ == graph,
        group_index(groups, graph) == -1 ==> forall|i: int|
            0 <= i < groups.len() ==> (#[trigger] groups[i].graph_id@) != graph,
    decreases groups.len(),
{
    if groups.len() > 0 && groups[0].graph_id@ != graph {
        lemma_group_index_range(groups.drop_first(), graph);
        if group_index(groups, graph) == -1 {
            assert forall|i: int|
                0 <= i < groups.len() implies (#[trigger] groups[i].graph_id@) != graph by {
                if i > 0 {
                    assert(groups.drop_first()[i - 1] == groups[i]);
                }
            }
        }
    }
}

/// If no group before `i` is for `graph` and group `i` is, then `i` is the
/// group index.
proof fn lemma_group_index_found(groups: Seq<GraphResults>, graph: Seq<char>, i: int)
    requires
        0 <= i < groups.len(),
        groups[i].graph_id@ == graph,
        forall|k: int| 0 <= k < i ==> (#[trigger] groups[k].graph_id@) != graph,
    ensures
        group_index(groups, graph) == i,
    decreases i,
{
    if i > 0 {
        assert(groups[0].graph_id@ != graph);
        assert(groups.drop_first()[i - 1] == groups[i]);
        assert forall|k: int|
            0 <= k < i - 1 implies (#[trigger] groups.drop_first()[k].graph_id@) != graph by {
            assert(groups.drop_first()[k] == groups[k + 1]);
        }
        lemma_group_index_found(groups.drop_first(), graph, i - 1);
    }
}

impl ResultAggregator {
    /// The groups, in order of first arrival.
    pub closed spec fn groups_view(self) -> Seq<GraphResults> {
        self.results_by_graph@
    }

    /// The global result counter.
    pub closed spec fn total_spec(self) -> int {
        self.total_results_collected as int
    }

    /// The results recorded for `graph`, in arrival order.
    pub open spec fn results_of(self, graph: Seq<char>) -> Seq<TaskResultView> {
        let j = group_index(self.groups_view(), graph);
        if j == -1 {
            Seq::empty()
        } else {
            self.groups_view()[j].results@.map_values(|r: TaskResult| r@)
        }
    }

    /// Well-formedness: one group per graph.
    pub open spec fn wf(self) -> bool {
        forall|i1: int, i2: int|
            #![trigger self.groups_view()[i1].graph_id@, self.groups_view()[i2].graph_id@]
            0 <= i1 < self.groups_view().len() && 0 <= i2 < self.groups_view().len() && i1 != i2
                ==> self.groups_view()[i1].graph_id@ != self.groups_view()[i2].graph_id@
    }

    /// One recording step: `r` was appended to its graph's list, every other
    /// graph's list is untouched, and the counter went up by one.
    pub open spec fn record_step(pre: ResultAggregator, post: ResultAggregator, r: TaskResultView) -> bool {
        &&& post.total_spec() == pre.total_spec() + 1
        &&& post.results_of(r.graph_id) == pre.results_of(r.graph_id).push(r)
        &&& forall|g: Seq<char>|
            g != r.graph_id ==> #[trigger] post.results_of(g) == pre.results_of(g)
    }

    /// Builds an empty aggregator.
    pub fn new() -> (r: ResultAggregator)
        ensures
            r.wf(),
            r.total_spec() == 0,
            r.groups_view().len() == 0,
            forall|g: Seq<char>| #[trigger] r.results_of(g) == Seq::<TaskResultView>::empty(),
    {
        ResultAggregator { results_by_graph: Vec::new(), total_results_collected: 0 }
    }

    /// Appends `result` to its graph's list — opening the group if this is
    /// the graph's first result — and counts it. Duplicates are accepted and
    /// counted again; recording never fails.
    pub fn add_result(&mut self, result: TaskResult) -> (r: Result<(), HiveError>)
        requires
            old(self).wf(),
            old(self).total_spec() < usize::MAX,
        ensures
            final(self).wf(),
            r is Ok,
            Self::record_step(*old(self), *final(self), result@),
    {
        let ghost pre = *self;
        let ghost rv = result@;
        let gid = result.graph_id.clone();
        let n = self.results_by_graph.len();
        let mut i: usize = 0;
        while i < n
            invariant
                pre == *old(self),
                pre.wf(),
                *self == pre,
                rv == result@,
                gid@ == rv.graph_id,
                n == self.results_by_graph@.len(),
                i <= n,
                pre.total_spec() < usize::MAX,
                forall|k: int|
                    0 <= k < i ==> (#[trigger] self.results_by_graph@[k].graph_id@) != rv.graph_id,
            decreases n - i,
        {
            let found = self.results_by_graph[i].graph_id == gid;
            if found {
                proof {
                    lemma_group_index_found(pre.results_by_graph@, rv.graph_id, i as int);
                }
                let ghost x = result;
                let e = &mut self.results_by_graph[i];
                e.results.push(result);
                self.total_results_collected = self.total_results_collected + 1;
                proof {
                    Self::lemma_update_keeps_other_groups(pre, *self, i as int, x);
                }
                return Ok(());
            }
            i = i + 1;
        }
        // first result for this graph: open a new group
        proof {
            lemma_group_index_range(pre.results_by_graph@, rv.graph_id);
            assert(group_index(pre.results_by_graph@, rv.graph_id) == -1) by {
                if group_index(pre.results_by_graph@, rv.graph_id) >= 0 {
                    let j = group_index(pre.results_by_graph@, rv.graph_id);
                    assert(pre.results_by_graph@[j].graph_id@ == rv.graph_id);
                }
            }
        }
        let ghost x = result;
        let mut results: Vec<TaskResult> = Vec::new();
        results.push(result);
        self.results_by_graph.push(GraphResults { graph_id: gid, results });
        self.total_results_collected = self.total_results_collected + 1;
        proof {
            Self::lemma_push_keeps_other_groups(pre, *self, x);
        }
        Ok(())
    }

    /// After appending `x` to group `j` (the group for its graph), the
    /// recording step holds.
    proof fn lemma_update_keeps_other_groups(
        pre: ResultAggregator,
        post: ResultAggregator,
        j: int,
        x: TaskResult,
    )
        requires
            pre.wf(),
            0 <= j < pre.groups_view().len(),
            pre.groups_view()[j].graph_id@ == x@.graph_id,
            group_index(pre.groups_view(), x@.graph_id) == j,
            post.total_spec() == pre.total_spec() + 1,
            post.groups_view().len() == pre.groups_view().len(),
            forall|k: int|
                0 <= k < pre.groups_view().len() && k != j ==> #[trigger] post.groups_view()[k]
                    == pre.groups_view()[k],
            post.groups_view()[j].graph_id@ == x@.graph_id,
            post.groups_view()[j].results@ == pre.groups_view()[j].results@.push(x),
        ensures
            post.wf(),
            Self::record_step(pre, post, x@),
    {
        let r = x@;
        assert forall|k: int|
            0 <= k < post.groups_view().len() implies #[trigger] post.groups_view()[k].graph_id@
            == pre.groups_view()[k].graph_id@ by {}
        Self::lemma_group_index_same(pre.groups_view(), post.groups_view());
        assert(group_index(post.groups_view(), r.graph_id) == j);
        assert(post.groups_view()[j].results@.map_values(|t: TaskResult| t@)
            =~= pre.groups_view()[j].results@.map_values(|t: TaskResult| t@).push(r));
        assert forall|g: Seq<char>| g != r.graph_id implies #[trigger] post.results_of(g)
            == pre.results_of(g) by {
            lemma_group_index_range(pre.groups_view(), g);
            let jg = group_index(pre.groups_view(), g);
            if jg >= 0 {
                assert(jg != j);
                assert(post.groups_view()[jg] == pre.groups_view()[jg]);
            }
        }
    }

    /// After opening a new group holding only `x` at the back, the recording
    /// step holds.
    proof fn lemma_push_keeps_other_groups(pre: ResultAggregator, post: ResultAggregator, x: TaskResult)
        requires
            pre.wf(),
            group_index(pre.groups_view(), x@.graph_id) == -1,
            post.total_spec() == pre.total_spec() + 1,
            post.groups_view().len() == pre.groups_view().len() + 1,
            forall|k: int|
                0 <= k < pre.groups_view().len() ==> #[trigger] post.groups_view()[k]
                    == pre.groups_view()[k],
            post.groups_view().last().graph_id@ == x@.graph_id,
            post.groups_view().last().results@ == Seq::empty().push(x),
        ensures
            post.wf(),
            Self::record_step(pre, post, x@),
    {
        let r = x@;
        let gv = post.groups_view();
        lemma_group_index_range(pre.groups_view(), r.graph_id);
        assert(gv =~= pre.groups_view().push(gv.last()));
        assert forall|i1: int, i2: int|
            #![trigger gv[i1].graph_id@, gv[i2].graph_id@]
            0 <= i1 < gv.len() && 0 <= i2 < gv.len() && i1 != i2 implies gv[i1].graph_id@
            != gv[i2].graph_id@ by {
            if i1 < pre.groups_view().len() && i2 < pre.groups_view().len() {
                assert(pre.groups_view()[i1].graph_id@ != pre.groups_view()[i2].graph_id@);
            }
        }
        assert forall|g: Seq<char>| true implies group_index(gv, g) == (if g == r.graph_id {
            pre.groups_view().len() as int
        } else {
            group_index(pre.groups_view(), g)
        }) by {
            lemma_group_index_range(pre.groups_view(), g);
            Self::lemma_group_index_push(pre.groups_view(), gv.last(), g);
            assert(gv =~= pre.groups_view().push(gv.last()));
        }
        assert(gv.last().results@.map_values(|t: TaskResult| t@) =~= Seq::<
            TaskResultView,
        >::empty().push(r));
        assert(post.results_of(r.graph_id) =~= pre.results_of(r.graph_id).push(r));
        assert forall|g: Seq<char>| g != r.graph_id implies #[trigger] post.results_of(g)
            == pre.results_of(g) by {
            lemma_group_index_range(pre.groups_view(), g);
        }
    }

    /// Two group sequences of equal length with pairwise equal graph
    /// identifiers index identically.
    proof fn lemma_group_index_same(a: Seq<GraphResults>, b: Seq<GraphResults>)
        requires
            a.len() == b.len(),
            forall|k: int| 0 <= k < a.len() ==> a[k].graph_id@ == #[trigger] b[k].graph_id@,
        ensures
            forall|g: Seq<char>| #[trigger] group_index(a, g) == group_index(b, g),
        decreases a.len(),
    {
        if a.len() > 0 {
            assert(a[0].graph_id@ == b[0].graph_id@);
            Self::lemma_group_index_same(a.drop_first(), b.drop_first());
            assert forall|g: Seq<char>| true implies #[trigger] group_index(a, g) == group_index(
                b,
                g,
            ) by {
                assert(group_index(a.drop_first(), g) == group_index(b.drop_first(), g));
            }
        }
    }

    /// Appending a group shifts nothing: a graph already present keeps its
    /// index, an absent one is found at the back exactly when the new group
    /// is its own.
    proof fn lemma_group_index_push(a: Seq<GraphResults>, e: GraphResults, g: Seq<char>)
        ensures
            group_index(a, g) >= 0 ==> group_index(a.push(e), g) == group_index(a, g),
            group_index(a, g) == -1 && e.graph_id@ == g ==> group_index(a.push(e), g) == a.len(),
            group_index(a, g) == -1 && e.graph_id@ != g ==> group_index(a.push(e), g) == -1,
        decreases a.len(),
    {
        reveal_with_fuel(group_index, 3);
        let ap = a.push(e);
        if a.len() == 0 {
            assert(ap[0] == e);
            assert(ap.drop_first() =~= Seq::<GraphResults>::empty());
            if e.graph_id@ == g {
                assert(group_index(ap, g) == 0);
            } else {
                assert(group_index(ap.drop_first(), g) == -1);
                assert(group_index(ap, g) == -1);
            }
        } else {
            assert(ap[0] == a[0]);
            Self::lemma_group_index_push(a.drop_first(), e, g);
            assert(ap.drop_first() =~= a.drop_first().push(e));
            if a[0].graph_id@ == g {
                assert(group_index(a, g) == 0);
                assert(group_index(ap, g) == 0);
            } else {
                let rest = group_index(a.drop_first(), g);
                let rest2 = group_index(ap.drop_first(), g);
                lemma_group_index_range(a.drop_first(), g);
                if rest >= 0 {
                    assert(rest2 == rest);
                    assert(group_index(ap, g) == rest2 + 1);
                    assert(group_index(a, g) == rest + 1);
                } else if e.graph_id@ == g {
                    assert(rest2 == a.drop_first().len());
                    assert(group_index(ap, g) == rest2 + 1);
                    assert(group_index(a, g) == -1);
                } else {
                    assert(rest2 == -1);
                    assert(group_index(ap, g) == -1);
                    assert(group_index(a, g) == -1);
                }
            }
        }
    }

    /// The global result counter.
    pub fn get_results_collected(&self) -> (r: usize)
        ensures
            r == self.total_spec(),
    {
        self.total_results_collected
    }

    /// A deep, consistent copy of the aggregate state, for the periodic
    /// saver to serialize without holding the aggregator locked during I/O.
    pub fn snapshot(&self) -> (r: AggregateSnapshot)
        ensures
            r.total_results_collected == self.total_spec(),
            groups_image(r.results_by_graph@) == groups_image(self.groups_view()),
    {
        let mut groups: Vec<GraphResults> = Vec::new();
        let n = self.results_by_graph.len();
        let mut i: usize = 0;
        while i < n
            invariant
                i <= n,
                n == self.results_by_graph@.len(),
                groups@.len() == i,
                groups_image(groups@) =~= groups_image(self.results_by_graph@.subrange(0, i as int)),
            decreases n - i,
        {
            let src_group = &self.results_by_graph[i];
            let mut results: Vec<TaskResult> = Vec::new();
            let m = src_group.results.len();
            let mut j: usize = 0;
            while j < m
                invariant
                    j <= m,
                    m == src_group.results@.len(),
                    results@.len() == j,
                    forall|k: int| 0 <= k < j ==> (#[trigger] results@[k])@ == src_group.results@[k]@,
                decreases m - j,
            {
                results.push(src_group.results[j].duplicate());
                j = j + 1;
            }
            let copied = GraphResults { graph_id: src_group.graph_id.clone(), results };
            let ghost gprev = groups@;
            let ghost copied_g = copied;
            groups.push(copied);
            proof {
                let prev = self.results_by_graph@.subrange(0, i as int);
                let cur = self.results_by_graph@.subrange(0, i as int + 1);
                assert(groups@ =~= gprev.push(copied_g));
                assert(copied_g.graph_id@ == self.results_by_graph@[i as int].graph_id@);
                assert(copied_g.results@.map_values(|r: TaskResult| r@)
                    =~= self.results_by_graph@[i as int].results@.map_values(|r: TaskResult| r@));
                assert forall|k: int|
                    0 <= k < i + 1 implies groups_image(groups@)[k] == #[trigger] groups_image(
                    cur,
                )[k] by {
                    if k < i {
                        assert(groups_image(gprev)[k] == groups_image(prev)[k]);
                        assert(groups@[k] == gprev[k]);
                        assert(cur[k] == prev[k]);
                    } else {
                        assert(groups@[k] == copied_g);
                        assert(cur[k] == self.results_by_graph@[i as int]);
                    }
                }
                assert(groups_image(groups@) =~= groups_image(cur));
            }
            i = i + 1;
        }
        proof {
            assert(self.results_by_graph@.subrange(0, n as int) =~= self.results_by_graph@);
        }
        AggregateSnapshot { results_by_graph: groups, total_results_collected: self.get_results_collected() }
    }

    /// Combines the aggregate results with the queue's counters into the
    /// final report.
    pub fn build_report(&self, total_tasks: usize, completed_tasks: usize) -> (r: FinalReport)
        ensures
            r.total_tasks == total_tasks,
            r.completed_tasks == completed_tasks,
            r.total_results == self.total_spec(),
            groups_image(r.results_by_graph@) == groups_image(self.groups_view()),
    {
        let snap = self.snapshot();
        FinalReport {
            total_tasks,
            completed_tasks,
            total_results: snap.total_results_collected,
            results_by_graph: snap.results_by_graph,
        }
    }

    /// Recording is duplicate-safe, not deduplicating: recording the same
    /// result twice raises the counter by two and appends the result twice
    /// to its graph's list.
    pub proof fn lemma_record_duplicate(
        s0: ResultAggregator,
        s1: ResultAggregator,
        s2: ResultAggregator,
        r: TaskResultView,
    )
        requires
            Self::record_step(s0, s1, r),
            Self::record_step(s1, s2, r),
        ensures
            s2.total_spec() == s0.total_spec() + 2,
            s2.results_of(r.graph_id) == s0.results_of(r.graph_id).push(r).push(r),
    {
    }
}

/// What each group of a snapshot or report says: the graph and the images
/// of its results, in order.
pub open spec fn groups_image(groups: Seq<GraphResults>) -> Seq<(Seq<char>, Seq<TaskResultView>)> {
    groups.map_values(
        |g: GraphResults| (g.graph_id@, g.results@.map_values(|r: TaskResult| r@)),
    )
}

/// A deep copy of the aggregate state at one instant.
#[derive(Debug)]
pub struct AggregateSnapshot {
    pub results_by_graph: Vec<GraphResults>,
    pub total_results_collected: usize,
}

/// The final report: per-graph result lists plus overall totals.
#[derive(Debug)]
pub struct FinalReport {
    pub total_tasks: usize,
    pub completed_tasks: usize,
    pub total_results: usize,
    pub results_by_graph: Vec<GraphResults>,
}

} // verus!
