//! Undirected graphs as adjacency lists, and the labeling heuristics a
//! worker can run over them.
//!
//! Each heuristic produces a labeling `f` of the vertices with values in
//! `{0, 1, 2}` such that every vertex labeled `0` has a neighbor labeled `2`
//! — the defining condition of a Roman domination function. Which vertices
//! receive `2` is each heuristic's own greedy choice and is not part of the
//! contract.

use vstd::prelude::*;

use crate::rng::random_index_below;

verus! {

/// An undirected graph; vertex `u`'s neighbors are `adjacency_list[u]`.
#[derive(Debug)]
pub struct Graph {
    adjacency_list: Vec<Vec<usize>>,
}

/// The `k`-th neighbor of `y` lists `y` back.
pub open spec fn links_back(adj: Seq<Seq<usize>>, y: int, k: int) -> bool {
    adj[(adj[y][k]) as int].contains(y as usize)
}

/// Every listed neighbor is a vertex of the graph, and neighborhood is
/// symmetric: whoever lists you, you list back.
pub open spec fn adj_wf(adj: Seq<Seq<usize>>) -> bool {
    &&& forall|u: int, k: int|
        0 <= u < adj.len() && 0 <= k < adj[u].len() ==> (#[trigger] adj[u][k]) < adj.len()
    &&& forall|u: int, k: int|
        #![trigger adj[u][k]]
        0 <= u < adj.len() && 0 <= k < adj[u].len() ==> links_back(adj, u, k)
}

/// Vertex `i` has a neighbor labeled `2`.
pub open spec fn dominated(adj: Seq<Seq<usize>>, f: Seq<u8>, i: int) -> bool {
    exists|k: int| 0 <= k < adj[i].len() && f[adj[i][k] as int] == 2
}

/// `f` is a Roman domination labeling of the graph `adj`: every vertex
/// carries `0`, `1` or `2`, and every vertex labeled `0` has a neighbor
/// labeled `2`.
pub open spec fn roman_labels(adj: Seq<Seq<usize>>, f: Seq<u8>) -> bool {
    &&& f.len() == adj.len()
    &&& forall|i: int| 0 <= i < f.len() ==> (#[trigger] f[i]) <= 2
    &&& forall|i: int| 0 <= i < f.len() && (#[trigger] f[i]) == 0 ==> dominated(adj, f, i)
}

/// Mid-run state of a heuristic: the labeling is already a valid Roman
/// domination labeling outside `unvisited`, and the unvisited vertices are
/// distinct, in range and still labeled `0`.
pub open spec fn partial_roman(adj: Seq<Seq<usize>>, f: Seq<u8>, unvisited: Seq<usize>) -> bool {
    &&& f.len() == adj.len()
    &&& forall|k: int|
        0 <= k < unvisited.len() ==> (#[trigger] unvisited[k]) < adj.len() && f[unvisited[k] as int]
            == 0
    &&& forall|k1: int, k2: int|
        #![trigger unvisited[k1], unvisited[k2]]
        0 <= k1 < unvisited.len() && 0 <= k2 < unvisited.len() && k1 != k2 ==> unvisited[k1]
            != unvisited[k2]
    &&& forall|i: int| 0 <= i < f.len() ==> (#[trigger] f[i]) <= 2
    &&& forall|i: int|
        0 <= i < f.len() && !unvisited.contains(i as usize) && (#[trigger] f[i]) == 0
            ==> dominated(adj, f, i)
}

/// The first position of `w` in `hay`, if any.
fn find_pos(hay: &Vec<usize>, w: usize) -> (r: Option<usize>)
    ensures
        r matches Some(p) ==> p < hay@.len() && hay@[p as int] == w,
        r is None ==> !hay@.contains(w),
{
    let n = hay.len();
    let mut i: usize = 0;
    while i < n
        invariant
            i <= n,
            n == hay@.len(),
            forall|k: int| 0 <= k < i ==> (#[trigger] hay@[k]) != w,
        decreases n - i,
    {
        if hay[i] == w {
            return Some(i);
        }
        i = i + 1;
    }
    None
}

/// The larger of two integers.
pub open spec fn vmax(a: int, b: int) -> int {
    if a >= b {
        a
    } else {
        b
    }
}

/// `adj` extended with isolated vertices up to `n` vertices (or unchanged if
/// it is already that large).
pub open spec fn extend_adj(adj: Seq<Seq<usize>>, n: int) -> Seq<Seq<usize>> {
    Seq::new(
        vmax(adj.len() as int, n) as nat,
        |i: int| if i < adj.len() { adj[i] } else { Seq::empty() },
    )
}

/// `adj` after appending the undirected edge `(u, v)`: `v` joins `u`'s
/// neighbor list, then `u` joins `v`'s.
pub open spec fn add_one_edge(adj: Seq<Seq<usize>>, u: int, v: int) -> Seq<Seq<usize>> {
    let a1 = adj.update(u, adj[u].push(v as usize));
    a1.update(v, a1[v].push(u as usize))
}

/// The adjacency lists of the graph on `n` vertices holding exactly `edges`,
/// added in order.
pub open spec fn adj_of_edges(n: nat, edges: Seq<(usize, usize)>) -> Seq<Seq<usize>>
    decreases edges.len(),
{
    if edges.len() == 0 {
        Seq::new(n, |i: int| Seq::<usize>::empty())
    } else {
        add_one_edge(
            adj_of_edges(n, edges.drop_last()),
            edges.last().0 as int,
            edges.last().1 as int,
        )
    }
}

/// Membership after adding one undirected edge: each row keeps its members,
/// `u`'s row gains `v`, and `v`'s row gains `u`.
proof fn lemma_add_one_edge_contains(adj: Seq<Seq<usize>>, u: int, v: int)
    requires
        0 <= u < adj.len(),
        0 <= v < adj.len(),
    ensures
        forall|y: int, x: usize|
            0 <= y < adj.len() ==> ((#[trigger] add_one_edge(adj, u, v)[y].contains(x)) <==> (
            adj[y].contains(x) || (y == u && x == v as usize) || (y == v && x == u as usize))),
{
    let a2 = add_one_edge(adj, u, v);
    assert forall|y: int, x: usize|
        0 <= y < adj.len() implies ((#[trigger] a2[y].contains(x)) <==> (adj[y].contains(x) || (y
        == u && x == v as usize) || (y == v && x == u as usize))) by {
        if a2[y].contains(x) {
            let k = choose|k: int| 0 <= k < a2[y].len() && a2[y][k] == x;
            if y != u && y != v {
                assert(adj[y][k] == x);
            } else if y == u && y == v {
                if k < adj[y].len() {
                    assert(adj[y][k] == x);
                } else if k == adj[y].len() {
                    assert(x == v as usize);
                } else {
                    assert(x == u as usize);
                }
            } else if y == u {
                if k < adj[y].len() {
                    assert(adj[y][k] == x);
                } else {
                    assert(x == v as usize);
                }
            } else {
                if k < adj[y].len() {
                    assert(adj[y][k] == x);
                } else {
                    assert(x == u as usize);
                }
            }
        }
        if adj[y].contains(x) {
            let k = choose|k: int| 0 <= k < adj[y].len() && adj[y][k] == x;
            assert(a2[y][k] == x);
            assert(a2[y].contains(x));
        }
        if y == u && x == v as usize {
            if u == v {
                assert(a2[y][adj[u].len() as int] == x);
            } else {
                assert(a2[y][adj[u].len() as int] == x);
            }
            assert(a2[y].contains(x));
        }
        if y == v && x == u as usize {
            assert(a2[y][a2[y].len() - 1] == x);
            assert(a2[y].contains(x));
        }
    }
}

/// Adding one undirected edge between existing vertices keeps the adjacency
/// lists well formed.
#[verifier::rlimit(100)]
    #[verifier::spinoff_prover]
    proof fn lemma_add_one_edge_wf(adj: Seq<Seq<usize>>, u: int, v: int)
    requires
        adj_wf(adj),
        adj.len() <= usize::MAX,
        0 <= u < adj.len(),
        0 <= v < adj.len(),
    ensures
        add_one_edge(adj, u, v).len() == adj.len(),
        adj_wf(add_one_edge(adj, u, v)),
{
    let a2 = add_one_edge(adj, u, v);
    lemma_add_one_edge_contains(adj, u, v);
    assert forall|y: int, k: int|
        0 <= y < a2.len() && 0 <= k < a2[y].len() implies (#[trigger] a2[y][k]) < a2.len() by {
        let x = a2[y][k];
        assert(a2[y].contains(x));
        if adj[y].contains(x) {
            let kk = choose|kk: int| 0 <= kk < adj[y].len() && adj[y][kk] == x;
            assert(adj[y][kk] < adj.len());
        }
    }
    assert forall|y: int, k: int|
        #![trigger a2[y][k]]
        0 <= y < a2.len() && 0 <= k < a2[y].len() implies links_back(a2, y, k) by {
        let x = a2[y][k];
        assert(a2[y].contains(x));
        if adj[y].contains(x) {
            let kk = choose|kk: int| 0 <= kk < adj[y].len() && adj[y][kk] == x;
            assert(adj[y][kk] < adj.len());
            assert(links_back(adj, y, kk));
            assert(adj[(adj[y][kk]) as int].contains(y as usize));
            assert(a2[x as int].contains(y as usize));
        } else if y == u && x == v as usize {
            assert(a2[v].contains(u as usize));
        } else {
            assert(y == v && x == u as usize);
            assert(a2[u].contains(v as usize));
        }
        assert(links_back(a2, y, k));
    }
}

proof fn lemma_adj_of_edges_wf(n: nat, edges: Seq<(usize, usize)>)
    requires
        n <= usize::MAX,
        forall|e: int| 0 <= e < edges.len() ==> (#[trigger] edges[e]).0 < n && edges[e].1 < n,
    ensures
        adj_of_edges(n, edges).len() == n,
        adj_wf(adj_of_edges(n, edges)),
    decreases edges.len(),
{
    if edges.len() > 0 {
        assert forall|e: int|
            0 <= e < edges.drop_last().len() implies (#[trigger] edges.drop_last()[e]).0 < n
            && edges.drop_last()[e].1 < n by {
            assert(edges.drop_last()[e] == edges[e]);
        }
        lemma_adj_of_edges_wf(n, edges.drop_last());
        lemma_add_one_edge_wf(
            adj_of_edges(n, edges.drop_last()),
            edges.last().0 as int,
            edges.last().1 as int,
        );
    }
}

/// Swapping two entries of a sequence leaves the same set of values in it.
proof fn lemma_swap_contains(s: Seq<usize>, i: int, j: int)
    requires
        0 <= i < s.len(),
        0 <= j < s.len(),
    ensures
        forall|x: usize| #[trigger]
            s.update(i, s[j]).update(j, s[i]).contains(x) <==> s.contains(x),
{
    let t = s.update(i, s[j]).update(j, s[i]);
    assert forall|x: usize| #[trigger] t.contains(x) <==> s.contains(x) by {
        if t.contains(x) {
            let k = choose|k: int| 0 <= k < t.len() && t[k] == x;
            if k == j {
                assert(s[i] == x);
            } else if k == i {
                assert(s[j] == x);
            } else {
                assert(s[k] == x);
            }
        }
        if s.contains(x) {
            let k = choose|k: int| 0 <= k < s.len() && s[k] == x;
            if k == i {
                assert(t[j] == x);
            } else if k == j {
                if i == j {
                    assert(t[j] == x);
                } else {
                    assert(t[i] == x);
                }
            } else {
                assert(t[k] == x);
            }
        }
    }
}

impl Graph {
    /// The adjacency lists as a sequence of neighbor sequences.
    pub closed spec fn adj(self) -> Seq<Seq<usize>> {
        self.adjacency_list@.map_values(|v: Vec<usize>| v@)
    }

    /// The number of vertices.
    pub open spec fn num_vertices_spec(self) -> int {
        self.adj().len() as int
    }

    /// Well-formedness: every listed neighbor is a vertex.
    pub open spec fn wf(self) -> bool {
        adj_wf(self.adj())
    }

    /// Builds a graph on `num_vertices` vertices from an edge list; each
    /// edge `(u, v)` appends `v` to `u`'s neighbors and `u` to `v`'s, in
    /// order.
    pub fn new(num_vertices: usize, edges: &[(usize, usize)]) -> (r: Graph)
        requires
            forall|e: int|
                0 <= e < edges@.len() ==> (#[trigger] edges@[e]).0 < num_vertices && edges@[e].1
                    < num_vertices,
        ensures
            r.wf(),
            r.num_vertices_spec() == num_vertices,
            r.adj() == adj_of_edges(num_vertices as nat, edges@),
    {
        let mut adjacency_list: Vec<Vec<usize>> = Vec::new();
        let mut i: usize = 0;
        while i < num_vertices
            invariant
                i <= num_vertices,
                adjacency_list@.len() == i,
                forall|u: int|
                    0 <= u < i ==> (#[trigger] adjacency_list@[u])@ == Seq::<usize>::empty(),
            decreases num_vertices - i,
        {
            adjacency_list.push(Vec::new());
            i = i + 1;
        }
        proof {
            assert(adjacency_list@.map_values(|v: Vec<usize>| v@) =~= adj_of_edges(
                num_vertices as nat,
                edges@.take(0),
            ));
        }
        let n = edges.len();
        let mut e: usize = 0;
        while e < n
            invariant
                e <= n,
                n == edges@.len(),
                adjacency_list@.len() == num_vertices,
                forall|k: int|
                    0 <= k < edges@.len() ==> (#[trigger] edges@[k]).0 < num_vertices && edges@[k].1
                        < num_vertices,
                adjacency_list@.map_values(|v: Vec<usize>| v@) == adj_of_edges(
                    num_vertices as nat,
                    edges@.take(e as int),
                ),
            decreases n - e,
        {
            let ghost before = adjacency_list@.map_values(|v: Vec<usize>| v@);
            let (u, v) = edges[e];
            let row_u = &mut adjacency_list[u];
            row_u.push(v);
            let row_v = &mut adjacency_list[v];
            row_v.push(u);
            proof {
                assert(edges@.take(e as int + 1).drop_last() =~= edges@.take(e as int));
                assert(edges@.take(e as int + 1).last() == edges@[e as int]);
                assert(adjacency_list@.map_values(|x: Vec<usize>| x@) =~= add_one_edge(
                    before,
                    u as int,
                    v as int,
                ));
            }
            e = e + 1;
        }
        proof {
            assert(edges@.take(n as int) =~= edges@);
            lemma_adj_of_edges_wf(num_vertices as nat, edges@);
        }
        Graph { adjacency_list }
    }

    /// The number of vertices.
    pub fn get_num_vertices(&self) -> (r: usize)
        ensures
            r == self.num_vertices_spec(),
    {
        self.adjacency_list.len()
    }

    /// The neighbor list of `vertex`.
    pub fn get_neighbors(&self, vertex: usize) -> (r: &Vec<usize>)
        requires
            vertex < self.num_vertices_spec(),
        ensures
            r@ == self.adj()[vertex as int],
    {
        &self.adjacency_list[vertex]
    }

    /// The degree of `vertex`.
    pub fn get_vertex_degree(&self, vertex: usize) -> (r: usize)
        requires
            vertex < self.num_vertices_spec(),
        ensures
            r == self.adj()[vertex as int].len(),
    {
        self.adjacency_list[vertex].len()
    }

    /// Grows the vertex set until `v` is a vertex; existing neighbor lists
    /// are untouched and new vertices start isolated.
    pub fn add_vertex(&mut self, v: usize)
        requires
            old(self).wf(),
        ensures
            final(self).wf(),
            final(self).num_vertices_spec() == vmax(old(self).num_vertices_spec(), v as int + 1),
            forall|u: int|
                0 <= u < old(self).num_vertices_spec() ==> final(self).adj()[u] == #[trigger] old(
                    self,
                ).adj()[u],
            forall|u: int|
                old(self).num_vertices_spec() <= u < final(self).num_vertices_spec()
                    ==> final(self).adj()[u] == Seq::<usize>::empty(),
    {
        while self.adjacency_list.len() <= v
            invariant
                adj_wf(old(self).adj()),
                self.adjacency_list@.len() >= old(self).adjacency_list@.len(),
                forall|u: int|
                    0 <= u < old(self).adjacency_list@.len() ==> (
                    #[trigger] self.adjacency_list@[u])@ == old(self).adjacency_list@[u]@,
                forall|u: int|
                    old(self).adjacency_list@.len() <= u < self.adjacency_list@.len()
                        ==> (#[trigger] self.adjacency_list@[u])@ == Seq::<usize>::empty(),
                self.adjacency_list@.len() <= vmax(
                    old(self).adjacency_list@.len() as int,
                    v as int + 1,
                ),
            decreases v + 1 - self.adjacency_list.len(),
        {
            self.adjacency_list.push(Vec::new());
        }
        proof {
            assert forall|u: int|
                0 <= u < old(self).num_vertices_spec() implies final(self).adj()[u] == #[trigger] old(
                self,
            ).adj()[u] by {
                assert(self.adjacency_list@[u]@ == old(self).adjacency_list@[u]@);
            }
            let a = self.adj();
            let a0 = old(self).adj();
            assert forall|u: int, k: int|
                #![trigger a[u][k]]
                0 <= u < a.len() && 0 <= k < a[u].len() implies a[u][k] < a.len() && links_back(
                a,
                u,
                k,
            ) by {
                assert(u < a0.len());
                assert(a[u] == a0[u]);
                assert(a0[u][k] < a0.len());
                assert(links_back(a0, u, k));
                assert(a0[(a0[u][k]) as int].contains(u as usize));
                assert(a[(a0[u][k]) as int] == a0[(a0[u][k]) as int]);
                assert(links_back(a, u, k));
            }
        }
    }

    /// Adds the undirected edge `(u, v)`, growing the vertex set as needed:
    /// `v` is appended to `u`'s neighbors and `u` to `v`'s.
    pub fn add_edge(&mut self, u: usize, v: usize)
        requires
            old(self).wf(),
        ensures
            final(self).wf(),
            final(self).num_vertices_spec() == vmax(
                old(self).num_vertices_spec(),
                vmax(u as int, v as int) + 1,
            ),
            final(self).adj() == add_one_edge(
                extend_adj(old(self).adj(), vmax(u as int, v as int) + 1),
                u as int,
                v as int,
            ),
    {
        self.add_vertex(u);
        let ghost mid = self.adj();
        self.add_vertex(v);
        let ghost grown = self.adj();
        proof {
            assert forall|w: int|
                0 <= w < old(self).adj().len() implies grown[w] == #[trigger] old(self).adj()[w] by {
                assert(mid[w] == old(self).adj()[w]);
                assert(grown[w] == mid[w]);
            }
            assert forall|w: int|
                old(self).adj().len() <= w < grown.len() implies grown[w] == Seq::<
                usize,
            >::empty() by {
                if w < mid.len() {
                    assert(grown[w] == mid[w]);
                }
            }
            assert(grown =~= extend_adj(old(self).adj(), vmax(u as int, v as int) + 1));
        }
        let nrows = self.adjacency_list.len();
        let row_u = &mut self.adjacency_list[u];
        row_u.push(v);
        let row_v = &mut self.adjacency_list[v];
        row_v.push(u);
        proof {
            assert(grown.len() == nrows);
            assert(self.adj() =~= add_one_edge(grown, u as int, v as int));
            lemma_add_one_edge_wf(grown, u as int, v as int);
        }
    }

    /// Labels the chosen unvisited vertex (position `p` of `unvisited`) with
    /// `2`, removes it, and removes its still-unvisited neighbors, which
    /// keep label `0` and are now dominated. The partial labeling stays
    /// valid, the unvisited set shrinks, and every label `2` is kept.
    #[verifier::rlimit(100)]
    #[verifier::spinoff_prover]
    fn assign_two_and_clear(&self, f: &mut Vec<u8>, unvisited: &mut Vec<usize>, p: usize)
        requires
            self.wf(),
            partial_roman(self.adj(), old(f)@, old(unvisited)@),
            p < old(unvisited)@.len(),
        ensures
            partial_roman(self.adj(), final(f)@, final(unvisited)@),
            final(f)@.len() == old(f)@.len(),
            final(unvisited)@.len() < old(unvisited)@.len(),
            forall|i: int|
                0 <= i < old(f)@.len() && (#[trigger] old(f)@[i]) == 2 ==> final(f)@[i] == 2,
            exists|i: int| 0 <= i < final(f)@.len() && final(f)@[i] == 2,
    {
        let ghost fb0 = old(f)@;
        let nv = f.len();
        let u = unvisited[p];
        let fu = &mut f[u];
        *fu = 2;
        unvisited.remove(p);
        proof {
            let pu = old(unvisited)@;
            assert(f@ =~= fb0.update(u as int, 2u8));
            assert(unvisited@ =~= pu.remove(p as int));
            assert forall|j2: int|
                0 <= j2 < f@.len() && !unvisited@.contains(j2 as usize) && (#[trigger] f@[j2]) == 0
                    implies dominated(self.adj(), f@, j2) by {
                if !pu.contains(j2 as usize) {
                    assert(fb0[j2] == 0);
                    let k = choose|k: int|
                        0 <= k < self.adj()[j2].len() && fb0[self.adj()[j2][k] as int] == 2;
                    assert(f@[self.adj()[j2][k] as int] == 2);
                    assert(dominated(self.adj(), f@, j2));
                } else {
                    // j2 left the unvisited set just now, so it is u itself;
                    // but u is labeled 2, contradicting f[j2] == 0
                    assert(f@.len() == nv);
                    let k = choose|k: int| 0 <= k < pu.len() && pu[k] == j2 as usize;
                    if k < p {
                        assert(unvisited@[k] == j2 as usize);
                    } else if k > p {
                        assert(unvisited@[k - 1] == j2 as usize);
                    } else {
                        assert(j2 == u as int);
                    }
                }
            }
        }
        // remove the chosen vertex's unvisited neighbors
        let degree = self.get_vertex_degree(u);
        let mut k: usize = 0;
        while k < degree
            invariant
                self.wf(),
                partial_roman(self.adj(), f@, unvisited@),
                u < self.adj().len(),
                degree == self.adj()[u as int].len(),
                k <= degree,
                f@.len() == old(f)@.len(),
                f@.len() <= usize::MAX,
                f@[u as int] == 2,
                unvisited@.len() < old(unvisited)@.len(),
                forall|i: int|
                    0 <= i < old(f)@.len() && (#[trigger] old(f)@[i]) == 2 ==> f@[i] == 2,
            decreases degree - k,
        {
            let w = self.get_neighbors(u)[k];
            match find_pos(unvisited, w) {
                Some(pos) => {
                    let ghost fb = f@;
                    let ghost pu = unvisited@;
                    let fw = &mut f[w];
                    *fw = 0;
                    unvisited.remove(pos);
                    proof {
                        assert(fb[w as int] == 0);
                        assert(f@ =~= fb);
                        assert(unvisited@ =~= pu.remove(pos as int));
                        assert forall|j2: int|
                            0 <= j2 < f@.len() && !unvisited@.contains(j2 as usize) && (
                            #[trigger] f@[j2]) == 0 implies dominated(self.adj(), f@, j2) by {
                            if pu.contains(j2 as usize) {
                                assert(j2 == (j2 as usize) as int);
                                // j2 left just now, so it is w, dominated by u
                                let kk = choose|kk: int| 0 <= kk < pu.len() && pu[kk] == j2 as usize;
                                if kk < pos {
                                    assert(unvisited@[kk] == j2 as usize);
                                } else if kk > pos {
                                    assert(unvisited@[kk - 1] == j2 as usize);
                                } else {
                                    assert(j2 == w as int);
                                    assert(self.adj()[u as int][k as int] == w);
                                    assert(links_back(self.adj(), u as int, k as int));
                                    assert(self.adj()[w as int].contains(u));
                                    let k2 = choose|k2: int|
                                        0 <= k2 < self.adj()[w as int].len() && self.adj()[w as int][k2]
                                            == u;
                                    assert(f@[self.adj()[j2][k2] as int] == 2);
                                    assert(dominated(self.adj(), f@, j2));
                                }
                            }
                            if !pu.contains(j2 as usize) {
                                assert(fb[j2] == 0);
                                let k4 = choose|k4: int|
                                    0 <= k4 < self.adj()[j2].len() && fb[self.adj()[j2][k4] as int]
                                        == 2;
                                assert(f@[self.adj()[j2][k4] as int] == 2);
                                assert(dominated(self.adj(), f@, j2));
                            }
                        }
                    }
                },
                None => {},
            }
            k = k + 1;
        }
    }

    /// If exactly one vertex is left unvisited, labels it `1` and finishes.
    #[verifier::rlimit(100)]
    #[verifier::spinoff_prover]
    fn settle_last_one(&self, f: &mut Vec<u8>, unvisited: &mut Vec<usize>)
        requires
            self.wf(),
            partial_roman(self.adj(), old(f)@, old(unvisited)@),
            old(unvisited)@.len() == 1,
        ensures
            partial_roman(self.adj(), final(f)@, final(unvisited)@),
            final(f)@.len() == old(f)@.len(),
            final(unvisited)@.len() == 0,
            forall|i: int|
                0 <= i < old(f)@.len() && (#[trigger] old(f)@[i]) == 2 ==> final(f)@[i] == 2,
    {
        let ghost fb = old(f)@;
        let nv = f.len();
        let last = unvisited[0];
        let fl = &mut f[last];
        *fl = 1;
        unvisited.remove(0);
        proof {
            assert(f@ =~= fb.update(last as int, 1u8));
            assert(unvisited@ =~= old(unvisited)@.remove(0));
            assert(unvisited@.len() == 0);
            assert forall|j2: int|
                0 <= j2 < f@.len() && !unvisited@.contains(j2 as usize) && (#[trigger] f@[j2]) == 0
                    implies dominated(self.adj(), f@, j2) by {
                assert(j2 != last as int);
                if !old(unvisited)@.contains(j2 as usize) {
                    assert(fb[j2] == 0);
                    let k = choose|k: int|
                        0 <= k < self.adj()[j2].len() && fb[self.adj()[j2][k] as int] == 2;
                    assert(self.adj()[j2][k] != last);
                    assert(f@[self.adj()[j2][k] as int] == 2);
                    assert(dominated(self.adj(), f@, j2));
                } else {
                    assert(f@.len() == nv);
                    assert(old(unvisited)@[0] == j2 as usize);
                    assert(j2 == last as int);
                }
            }
        }
    }

    /// A fresh all-zero labeling and the full unvisited set `0..n`.
    fn labeling_start(&self) -> (r: (Vec<u8>, Vec<usize>))
        requires
            self.wf(),
        ensures
            partial_roman(self.adj(), r.0@, r.1@),
            r.0@.len() == self.num_vertices_spec(),
            r.1@.len() == self.num_vertices_spec(),
            forall|k: int| 0 <= k < r.0@.len() ==> (#[trigger] r.0@[k]) == 0,
            forall|k: int| 0 <= k < r.1@.len() ==> (#[trigger] r.1@[k]) == k,
    {
        let n = self.adjacency_list.len();
        let mut f: Vec<u8> = Vec::new();
        let mut unvisited: Vec<usize> = Vec::new();
        let mut i: usize = 0;
        while i < n
            invariant
                i <= n,
                f@.len() == i,
                unvisited@.len() == i,
                forall|k: int| 0 <= k < i ==> (#[trigger] f@[k]) == 0,
                forall|k: int| 0 <= k < i ==> (#[trigger] unvisited@[k]) == k,
            decreases n - i,
        {
            f.push(0);
            unvisited.push(i);
            i = i + 1;
        }
        proof {
            assert(n == self.num_vertices_spec());
            assert forall|i2: int|
                0 <= i2 < n && !unvisited@.contains(i2 as usize) && (#[trigger] f@[i2]) == 0
                    implies false by {
                assert(unvisited@[i2] == i2 as usize);
            }
        }
        (f, unvisited)
    }

    /// Random heuristic: repeatedly picks a uniformly random unvisited
    /// vertex, labels it `2` and clears its unvisited neighbors; a single
    /// leftover vertex is labeled `1`.
    pub fn h1(&self) -> (r: Vec<u8>)
        requires
            self.wf(),
        ensures
            roman_labels(self.adj(), r@),
            self.num_vertices_spec() > 0 ==> exists|i: int| 0 <= i < r@.len() && r@[i] == 2,
    {
        let (mut f, mut unvisited) = self.labeling_start();
        while unvisited.len() > 0
            invariant
                self.wf(),
                partial_roman(self.adj(), f@, unvisited@),
                f@.len() == self.num_vertices_spec(),
                unvisited@.len() == f@.len() || unvisited@.len() == 0 || exists|i: int|
                    0 <= i < f@.len() && f@[i] == 2,
                unvisited@.len() == 0 && f@.len() > 0 ==> exists|i: int|
                    0 <= i < f@.len() && f@[i] == 2,
            decreases unvisited@.len(),
        {
            let p = random_index_below(unvisited.len());
            self.assign_two_and_clear(&mut f, &mut unvisited, p);
            if unvisited.len() == 1 {
                self.settle_last_one(&mut f, &mut unvisited);
            }
        }
        f
    }

    /// Degree-descending heuristic: visits vertices by static degree,
    /// highest first, labeling each visited vertex `2` and clearing its
    /// unvisited neighbors; a single leftover vertex is labeled `1`.
    pub fn h2(&self) -> (r: Vec<u8>)
        requires
            self.wf(),
        ensures
            roman_labels(self.adj(), r@),
            self.num_vertices_spec() > 0 ==> exists|i: int| 0 <= i < r@.len() && r@[i] == 2,
    {
        let (mut f, mut unvisited) = self.labeling_start();
        let ghost before = unvisited@;
        let nv = f.len();
        self.sort_by_degree_desc(&mut unvisited);
        proof {
            assert forall|i2: int|
                0 <= i2 < f@.len() && !unvisited@.contains(i2 as usize) && (#[trigger] f@[i2]) == 0
                    implies false by {
                assert(before[i2] == i2 as usize);
                assert(before.contains(i2 as usize));
            }
        }
        while unvisited.len() > 0
            invariant
                self.wf(),
                partial_roman(self.adj(), f@, unvisited@),
                f@.len() == self.num_vertices_spec(),
                unvisited@.len() == f@.len() || unvisited@.len() == 0 || exists|i: int|
                    0 <= i < f@.len() && f@[i] == 2,
                unvisited@.len() == 0 && f@.len() > 0 ==> exists|i: int|
                    0 <= i < f@.len() && f@[i] == 2,
            decreases unvisited@.len(),
        {
            self.assign_two_and_clear(&mut f, &mut unvisited, 0);
            if unvisited.len() == 1 {
                self.settle_last_one(&mut f, &mut unvisited);
            }
        }
        f
    }

    /// Active-degree heuristic: repeatedly picks the unvisited vertex with
    /// the most unvisited neighbors.
    pub fn h3(&self) -> (r: Vec<u8>)
        requires
            self.wf(),
        ensures
            roman_labels(self.adj(), r@),
            self.num_vertices_spec() > 0 ==> exists|i: int| 0 <= i < r@.len() && r@[i] == 2,
    {
        let (mut f, mut unvisited) = self.labeling_start();
        while unvisited.len() > 0
            invariant
                self.wf(),
                partial_roman(self.adj(), f@, unvisited@),
                f@.len() == self.num_vertices_spec(),
                unvisited@.len() == f@.len() || unvisited@.len() == 0 || exists|i: int|
                    0 <= i < f@.len() && f@[i] == 2,
                unvisited@.len() == 0 && f@.len() > 0 ==> exists|i: int|
                    0 <= i < f@.len() && f@[i] == 2,
            decreases unvisited@.len(),
        {
            let p = self.position_of_max_active_degree(&unvisited);
            self.assign_two_and_clear(&mut f, &mut unvisited, p);
            if unvisited.len() == 1 {
                self.settle_last_one(&mut f, &mut unvisited);
            }
        }
        f
    }

    /// Like the active-degree heuristic, but additionally labels `1` every
    /// unvisited vertex left without unvisited neighbors after each step.
    pub fn h4(&self) -> (r: Vec<u8>)
        requires
            self.wf(),
        ensures
            roman_labels(self.adj(), r@),
            self.num_vertices_spec() > 0 ==> exists|i: int| 0 <= i < r@.len() && r@[i] == 2,
    {
        let (mut f, mut unvisited) = self.labeling_start();
        while unvisited.len() > 0
            invariant
                self.wf(),
                partial_roman(self.adj(), f@, unvisited@),
                f@.len() == self.num_vertices_spec(),
                unvisited@.len() == f@.len() || unvisited@.len() == 0 || exists|i: int|
                    0 <= i < f@.len() && f@[i] == 2,
                unvisited@.len() == 0 && f@.len() > 0 ==> exists|i: int|
                    0 <= i < f@.len() && f@[i] == 2,
            decreases unvisited@.len(),
        {
            let p = self.position_of_max_active_degree(&unvisited);
            self.assign_two_and_clear(&mut f, &mut unvisited, p);
            self.settle_isolated(&mut f, &mut unvisited);
            if unvisited.len() == 1 {
                self.settle_last_one(&mut f, &mut unvisited);
            }
        }
        f
    }

    /// The position of an unvisited vertex with the most unvisited
    /// neighbors; on ties the later position wins.
    fn position_of_max_active_degree(&self, unvisited: &Vec<usize>) -> (r: usize)
        requires
            self.wf(),
            unvisited@.len() > 0,
            forall|k: int|
                0 <= k < unvisited@.len() ==> (#[trigger] unvisited@[k]) < self.num_vertices_spec(),
        ensures
            r < unvisited@.len(),
    {
        let n = unvisited.len();
        let mut best_pos: usize = 0;
        let mut best_degree: usize = 0;
        let mut k: usize = 0;
        while k < n
            invariant
                self.wf(),
                k <= n,
                n == unvisited@.len(),
                n > 0,
                best_pos < n,
                forall|x: int|
                    0 <= x < unvisited@.len() ==> (#[trigger] unvisited@[x])
                        < self.num_vertices_spec(),
            decreases n - k,
        {
            let d = self.count_active_neighbors(unvisited, unvisited[k]);
            if d >= best_degree {
                best_degree = d;
                best_pos = k;
            }
            k = k + 1;
        }
        best_pos
    }

    /// How many neighbors of `v` are still unvisited.
    fn count_active_neighbors(&self, unvisited: &Vec<usize>, v: usize) -> (r: usize)
        requires
            self.wf(),
            v < self.num_vertices_spec(),
        ensures
            r <= self.adj()[v as int].len(),
    {
        let degree = self.get_vertex_degree(v);
        let mut count: usize = 0;
        let mut k: usize = 0;
        while k < degree
            invariant
                self.wf(),
                k <= degree,
                count <= k,
                v < self.adj().len(),
                degree == self.adj()[v as int].len(),
            decreases degree - k,
        {
            let w = self.get_neighbors(v)[k];
            if find_pos(unvisited, w).is_some() {
                count = count + 1;
            }
            k = k + 1;
        }
        count
    }

    /// Labels `1` and removes every unvisited vertex that has no unvisited
    /// neighbor left.
    #[verifier::rlimit(100)]
    #[verifier::spinoff_prover]
    fn settle_isolated(&self, f: &mut Vec<u8>, unvisited: &mut Vec<usize>)
        requires
            self.wf(),
            partial_roman(self.adj(), old(f)@, old(unvisited)@),
        ensures
            partial_roman(self.adj(), final(f)@, final(unvisited)@),
            final(f)@.len() == old(f)@.len(),
            final(unvisited)@.len() <= old(unvisited)@.len(),
            forall|i: int|
                0 <= i < old(f)@.len() && (#[trigger] old(f)@[i]) == 2 ==> final(f)@[i] == 2,
    {
        let nv = f.len();
        let mut idx: usize = 0;
        while idx < unvisited.len()
            invariant
                self.wf(),
                partial_roman(self.adj(), f@, unvisited@),
                idx <= unvisited@.len(),
                f@.len() == old(f)@.len(),
                f@.len() <= usize::MAX,
                unvisited@.len() <= old(unvisited)@.len(),
                forall|i: int|
                    0 <= i < old(f)@.len() && (#[trigger] old(f)@[i]) == 2 ==> f@[i] == 2,
            decreases unvisited@.len() - idx,
        {
            let v = unvisited[idx];
            let d = self.count_active_neighbors(unvisited, v);
            if d == 0 {
                let ghost fb = f@;
                let ghost pu = unvisited@;
                let fv = &mut f[v];
                *fv = 1;
                unvisited.remove(idx);
                proof {
                    assert(f@ =~= fb.update(v as int, 1u8));
                    assert(unvisited@ =~= pu.remove(idx as int));
                    assert forall|j2: int|
                        0 <= j2 < f@.len() && !unvisited@.contains(j2 as usize) && (
                        #[trigger] f@[j2]) == 0 implies dominated(self.adj(), f@, j2) by {
                        assert(j2 != v as int);
                        if !pu.contains(j2 as usize) {
                            assert(fb[j2] == 0);
                            let k = choose|k: int|
                                0 <= k < self.adj()[j2].len() && fb[self.adj()[j2][k] as int] == 2;
                            assert(self.adj()[j2][k] != v);
                            assert(f@[self.adj()[j2][k] as int] == 2);
                            assert(dominated(self.adj(), f@, j2));
                        } else {
                            let kk = choose|kk: int| 0 <= kk < pu.len() && pu[kk] == j2 as usize;
                            if kk < idx {
                                assert(unvisited@[kk] == j2 as usize);
                            } else if kk > idx {
                                assert(unvisited@[kk - 1] == j2 as usize);
                            } else {
                                assert(j2 == v as int);
                            }
                        }
                    }
                }
            } else {
                idx = idx + 1;
            }
        }
    }

    /// Stable insertion sort of the unvisited list by descending static
    /// degree. The list keeps the same length, the same set of vertices,
    /// distinct and in range.
    fn sort_by_degree_desc(&self, unvisited: &mut Vec<usize>)
        requires
            self.wf(),
            forall|k: int|
                0 <= k < old(unvisited)@.len() ==> (#[trigger] old(unvisited)@[k])
                    < self.num_vertices_spec(),
            forall|k1: int, k2: int|
                #![trigger old(unvisited)@[k1], old(unvisited)@[k2]]
                0 <= k1 < old(unvisited)@.len() && 0 <= k2 < old(unvisited)@.len() && k1 != k2
                    ==> old(unvisited)@[k1] != old(unvisited)@[k2],
        ensures
            final(unvisited)@.len() == old(unvisited)@.len(),
            forall|k: int|
                0 <= k < final(unvisited)@.len() ==> (#[trigger] final(unvisited)@[k])
                    < self.num_vertices_spec(),
            forall|k1: int, k2: int|
                #![trigger final(unvisited)@[k1], final(unvisited)@[k2]]
                0 <= k1 < final(unvisited)@.len() && 0 <= k2 < final(unvisited)@.len() && k1 != k2
                    ==> final(unvisited)@[k1] != final(unvisited)@[k2],
            forall|x: usize| #[trigger]
                final(unvisited)@.contains(x) <==> old(unvisited)@.contains(x),
    {
        let n = unvisited.len();
        let mut i: usize = 1;
        while i < n
            invariant
                self.wf(),
                n == 0 || 1 <= i,
                n == unvisited@.len(),
                forall|k: int|
                    0 <= k < unvisited@.len() ==> (#[trigger] unvisited@[k])
                        < self.num_vertices_spec(),
                forall|k1: int, k2: int|
                    #![trigger unvisited@[k1], unvisited@[k2]]
                    0 <= k1 < unvisited@.len() && 0 <= k2 < unvisited@.len() && k1 != k2
                        ==> unvisited@[k1] != unvisited@[k2],
                forall|x: usize| #[trigger] unvisited@.contains(x) <==> old(unvisited)@.contains(x),
            decreases n - i,
        {
            let mut j: usize = i;
            while j > 0
                invariant
                    self.wf(),
                    j <= i < n,
                    n == unvisited@.len(),
                    forall|k: int|
                        0 <= k < unvisited@.len() ==> (#[trigger] unvisited@[k])
                            < self.num_vertices_spec(),
                    forall|k1: int, k2: int|
                        #![trigger unvisited@[k1], unvisited@[k2]]
                        0 <= k1 < unvisited@.len() && 0 <= k2 < unvisited@.len() && k1 != k2
                            ==> unvisited@[k1] != unvisited@[k2],
                    forall|x: usize| #[trigger]
                        unvisited@.contains(x) <==> old(unvisited)@.contains(x),
                decreases j,
            {
                let a = unvisited[j - 1];
                let b = unvisited[j];
                let da = self.get_vertex_degree(a);
                let db = self.get_vertex_degree(b);
                if da < db {
                    let ghost before = unvisited@;
                    let e1 = &mut unvisited[j - 1];
                    *e1 = b;
                    let e2 = &mut unvisited[j];
                    *e2 = a;
                    proof {
                        assert(unvisited@ =~= before.update(j - 1, before[j as int]).update(
                            j as int,
                            before[j - 1],
                        ));
                        lemma_swap_contains(before, j - 1, j as int);
                    }
                    j = j - 1;
                } else {
                    j = 0;
                }
            }
            i = i + 1;
        }
    }
}

} // verus!
