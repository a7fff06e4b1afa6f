//! A directed graph with labelled edges, searched breadth-first.
use vstd::prelude::*;
use vstd::laws_eq::obeys_concrete_eq;
use std::collections::HashMap;
use std::collections::VecDeque;

verus! {

/// The message of a search from a node the graph does not hold, written with
/// the node's `std::fmt::Display`.
#[verifier::external_body]
fn missing_start_message<N: std::fmt::Display>(node: &N) -> String {
    format!("Couldn't find starting node {}", node)
}

/// A directed graph: nodes, and for each node its labelled out-edges (and
/// in-edges) by node index.
pub struct Graph<N, E> {
    nodes: Vec<N>,
    edges_out: Vec<Vec<(E, usize)>>,
    edges_in: Vec<Vec<(usize, E)>>,
    node_counter: usize,
}

/// The graph as the contracts see it.
pub struct GraphModel<N, E> {
    pub nodes: Seq<N>,
    /// For each node, its out-edges: label and target index.
    pub out: Seq<Seq<(E, usize)>>,
    /// For each node, its in-edges: source index and label.
    pub inc: Seq<Seq<(usize, E)>>,
}

impl<N, E> View for Graph<N, E> {
    type V = GraphModel<N, E>;

    closed spec fn view(&self) -> GraphModel<N, E> {
        GraphModel {
            nodes: self.nodes@,
            out: self.edges_out@.map_values(|v: Vec<(E, usize)>| v@),
            inc: self.edges_in@.map_values(|v: Vec<(usize, E)>| v@),
        }
    }
}

/// Every table has one row per node and every edge joins two nodes.
pub open spec fn graph_ok<N, E>(g: GraphModel<N, E>) -> bool {
    &&& g.out.len() == g.nodes.len()
    &&& g.inc.len() == g.nodes.len()
    &&& forall|i: int, k: int| 0 <= i < g.out.len() && 0 <= k < g.out[i].len() ==> (#[trigger] g.out[i][k]).1 < g.nodes.len()
    &&& forall|i: int, k: int| 0 <= i < g.inc.len() && 0 <= k < g.inc[i].len() ==> (#[trigger] g.inc[i][k]).0 < g.nodes.len()
}

/// The index a node is found at: the last one it was added at, -1 if none.
pub open spec fn last_index_of<N>(s: Seq<N>, n: N) -> int
    decreases s.len(),
{
    if s.len() == 0 {
        -1
    } else if s.last() == n {
        s.len() - 1
    } else {
        last_index_of(s.drop_last(), n)
    }
}

/// Some out-edge of a node has label `e`.
pub open spec fn has_edge<E>(row: Seq<(E, usize)>, e: E) -> bool {
    exists|k: int| 0 <= k < row.len() && (#[trigger] row[k]).0 == e
}

/// Some out-edge of `u` leads to `v`.
pub open spec fn leads_to<N, E>(g: GraphModel<N, E>, u: int, v: int) -> bool {
    exists|k: int| 0 <= k < g.out[u].len() && (#[trigger] g.out[u][k]).1 == v
}

/// `ids` is a sequence of nodes, each leading to the next.
pub open spec fn chain<N, E>(g: GraphModel<N, E>, ids: Seq<int>) -> bool {
    &&& ids.len() >= 1
    &&& forall|k: int| 0 <= k < ids.len() ==> 0 <= #[trigger] ids[k] < g.nodes.len()
    &&& forall|k: int| 0 <= k < ids.len() - 1 ==> leads_to(g, #[trigger] ids[k], ids[k + 1])
}

/// `path` follows the nodes `ids`: its k-th entry is an out-edge of
/// `ids[k]` into `ids[k + 1]`, with that node.
pub open spec fn walk_ok<N, E>(g: GraphModel<N, E>, ids: Seq<int>, path: Seq<(E, N)>) -> bool {
    &&& ids.len() == path.len() + 1
    &&& forall|k: int| 0 <= k < ids.len() ==> 0 <= #[trigger] ids[k] < g.nodes.len()
    &&& forall|k: int|
        0 <= k < path.len() ==> g.out[ids[k]].contains((#[trigger] path[k].0, ids[k + 1] as usize))
            && g.nodes[ids[k + 1]] == path[k].1
}

proof fn lemma_last_index_of<N>(s: Seq<N>, n: N)
    ensures
        -1 <= last_index_of(s, n) < s.len(),
        last_index_of(s, n) >= 0 ==> s[last_index_of(s, n)] == n,
        last_index_of(s, n) == -1 <==> !s.contains(n),
    decreases s.len(),
{
    if s.len() > 0 {
        lemma_last_index_of(s.drop_last(), n);
        if s.last() != n && s.contains(n) {
            let j = choose|j: int| 0 <= j < s.len() && s[j] == n;
            assert(s.drop_last()[j] == n);
        }
        if s.drop_last().contains(n) {
            let j = choose|j: int| 0 <= j < s.drop_last().len() && s.drop_last()[j] == n;
            assert(s[j] == n);
        }
    }
}

impl<N, E> Graph<N, E> {
    /// Every table has one row per node and every edge joins two nodes.
    pub closed spec fn wf(&self) -> bool {
        &&& graph_ok(self@)
        &&& self.node_counter == self.nodes@.len()
    }
}

impl<N: Copy + PartialEq + std::fmt::Display, E: Copy + PartialEq> Graph<N, E> {

    pub fn new() -> (g: Self)
        ensures
            g.wf(),
            g@.nodes == Seq::<N>::empty(),
            g@.out == Seq::<Seq<(E, usize)>>::empty(),
            g@.inc == Seq::<Seq<(usize, E)>>::empty(),
    {
        let g = Graph { nodes: Vec::new(), edges_out: Vec::new(), edges_in: Vec::new(), node_counter: 0 };
        assert(g@.out =~= Seq::<Seq<(E, usize)>>::empty());
        assert(g@.inc =~= Seq::<Seq<(usize, E)>>::empty());
        g
    }

    /// Adds a node without edges; returns its index.
    pub fn add_node(&mut self, node: N) -> (idx: usize)
        requires
            old(self).wf(),
            old(self)@.nodes.len() < usize::MAX,
        ensures
            final(self).wf(),
            idx == old(self)@.nodes.len(),
            final(self)@.nodes == old(self)@.nodes.push(node),
            final(self)@.out == old(self)@.out.push(Seq::empty()),
            final(self)@.inc == old(self)@.inc.push(Seq::empty()),
    {
        self.nodes.push(node);
        self.edges_out.push(Vec::new());
        self.edges_in.push(Vec::new());
        self.node_counter = self.node_counter + 1;
        assert(self@.out =~= old(self)@.out.push(Seq::empty()));
        assert(self@.inc =~= old(self)@.inc.push(Seq::empty()));
        assert(self.wf()) by {
            assert forall|i: int, k: int| 0 <= i < self@.out.len() && 0 <= k < self@.out[i].len() implies (#[trigger] self@.out[i][k]).1 < self@.nodes.len() by {
                assert(self@.out[i] == old(self)@.out[i]);
            }
            assert forall|i: int, k: int| 0 <= i < self@.inc.len() && 0 <= k < self@.inc[i].len() implies (#[trigger] self@.inc[i][k]).0 < self@.nodes.len() by {
                assert(self@.inc[i] == old(self)@.inc[i]);
            }
        }
        self.node_counter - 1
    }

    /// The index of a node (the last one it was added at).
    fn find_node(&self, node: &N) -> (idx: Option<usize>)
        requires
            obeys_concrete_eq::<N>(),
        ensures
            match idx {
                Some(i) => i == last_index_of(self@.nodes, *node) && i < self@.nodes.len(),
                None => last_index_of(self@.nodes, *node) == -1,
            },
    {
        proof {
            reveal(obeys_concrete_eq);
            lemma_last_index_of(self@.nodes, *node);
        }
        let mut i = self.nodes.len();
        assert(self.nodes@.take(i as int) =~= self.nodes@);
        while i > 0
            invariant
                obeys_concrete_eq::<N>(),
                i <= self.nodes@.len(),
                last_index_of(self.nodes@, *node) == last_index_of(self.nodes@.take(i as int), *node),
            decreases i,
        {
            proof {
                reveal(obeys_concrete_eq);
            }
            assert(self.nodes@.take(i as int).drop_last() =~= self.nodes@.take(i - 1));
            assert(self.nodes@.take(i as int).last() == self.nodes@[i - 1]);
            if self.nodes[i - 1] == *node {
                return Some(i - 1);
            }
            i -= 1;
        }
        None
    }

    /// Adds the edge `from -> to` labelled `edge`; both nodes must be in the
    /// graph.
    pub fn add_edge(&mut self, from: N, to: N, edge: E)
        requires
            old(self).wf(),
            obeys_concrete_eq::<N>(),
            old(self)@.nodes.contains(from),
            old(self)@.nodes.contains(to),
        ensures
            final(self).wf(),
            ({
                let f = last_index_of(old(self)@.nodes, from);
                let t = last_index_of(old(self)@.nodes, to);
                &&& final(self)@.nodes == old(self)@.nodes
                &&& final(self)@.out == old(self)@.out.update(f, old(self)@.out[f].push((edge, t as usize)))
                &&& final(self)@.inc == old(self)@.inc.update(t, old(self)@.inc[t].push((f as usize, edge)))
            }),
    {
        proof {
            lemma_last_index_of(self@.nodes, from);
            lemma_last_index_of(self@.nodes, to);
        }
        let from_idx = self.find_node(&from).unwrap();
        let to_idx = self.find_node(&to).unwrap();
        let mut row: Vec<(E, usize)> = Vec::new();
        self.edges_out.set_and_swap(from_idx, &mut row);
        row.push((edge, to_idx));
        self.edges_out.set_and_swap(from_idx, &mut row);
        let mut row_in: Vec<(usize, E)> = Vec::new();
        self.edges_in.set_and_swap(to_idx, &mut row_in);
        row_in.push((from_idx, edge));
        self.edges_in.set_and_swap(to_idx, &mut row_in);
        assert(self@.out =~= old(self)@.out.update(from_idx as int, old(self)@.out[from_idx as int].push((edge, to_idx))));
        assert(self@.inc =~= old(self)@.inc.update(to_idx as int, old(self)@.inc[to_idx as int].push((from_idx, edge))));
        assert(self.wf()) by {
            assert forall|i: int, k: int| 0 <= i < self@.out.len() && 0 <= k < self@.out[i].len() implies (#[trigger] self@.out[i][k]).1 < self@.nodes.len() by {
                if i != from_idx as int || k < old(self)@.out[i].len() {
                    assert(self@.out[i][k] == old(self)@.out[i][k]);
                }
            }
            assert forall|i: int, k: int| 0 <= i < self@.inc.len() && 0 <= k < self@.inc[i].len() implies (#[trigger] self@.inc[i][k]).0 < self@.nodes.len() by {
                if i != to_idx as int || k < old(self)@.inc[i].len() {
                    assert(self@.inc[i][k] == old(self)@.inc[i][k]);
                }
            }
        }
    }

    pub fn node_count(&self) -> (n: usize)
        ensures
            n == self@.nodes.len(),
    {
        self.nodes.len()
    }

    /// The node at index `i`.
    pub fn node_at(&self, i: usize) -> (n: &N)
        requires
            i < self@.nodes.len(),
        ensures
            *n == self@.nodes[i as int],
    {
        &self.nodes[i]
    }

    /// The out-edges of the node at index `i`: label and target index.
    pub fn out_edges(&self, i: usize) -> (r: &[(E, usize)])
        requires
            self.wf(),
            i < self@.nodes.len(),
        ensures
            r@ == self@.out[i as int],
    {
        self.edges_out[i].as_slice()
    }

    /// The number of edges.
    pub fn edge_count(&self) -> (n: usize)
        requires
            self.wf(),
            total_edges(self@.out, self@.out.len() as int) <= usize::MAX,
        ensures
            n == total_edges(self@.out, self@.out.len() as int),
    {
        let mut edge_count: usize = 0;
        let mut n: usize = 0;
        while n < self.nodes.len()
            invariant
                n <= self.nodes@.len(),
                self.nodes@.len() == self@.out.len(),
                total_edges(self@.out, self@.out.len() as int) <= usize::MAX,
                edge_count == total_edges(self@.out, n as int),
            decreases self.nodes@.len() - n,
        {
            proof {
                lemma_total_edges_mono(self@.out, n + 1, self@.out.len() as int);
            }
            assert(self@.out[n as int] == self.edges_out@[n as int]@);
            edge_count = edge_count + self.edges_out[n].len();
            n += 1;
        }
        edge_count
    }
}

/// The number of edges out of the first `n` nodes.
pub open spec fn total_edges<E>(out: Seq<Seq<(E, usize)>>, n: int) -> int
    decreases n,
{
    if n <= 0 {
        0
    } else {
        total_edges(out, n - 1) + out[n - 1].len()
    }
}

proof fn lemma_total_edges_mono<E>(out: Seq<Seq<(E, usize)>>, a: int, b: int)
    requires
        a <= b,
    ensures
        total_edges(out, a) <= total_edges(out, b),
    decreases b - a,
{
    if a < b {
        lemma_total_edges_mono(out, a, b - 1);
    }
}

/// A set of nodes that holds every successor of its members holds every
/// node of a chain that starts in it.
proof fn lemma_closed_holds_chain<N, E>(g: GraphModel<N, E>, closed: Set<int>, ids: Seq<int>, k: int)
    requires
        chain(g, ids),
        closed.contains(ids[0]),
        forall|u: int, j: int| closed.contains(u) && 0 <= j < g.out[u].len() ==> closed.contains(#[trigger] g.out[u][j].1 as int),
        0 <= k < ids.len(),
    ensures
        closed.contains(ids[k]),
    decreases k,
{
    if k > 0 {
        lemma_closed_holds_chain(g, closed, ids, k - 1);
        assert(leads_to(g, ids[k - 1], ids[k]));
        let j = choose|j: int| 0 <= j < g.out[ids[k - 1]].len() && (#[trigger] g.out[ids[k - 1]][j]).1 == ids[k];
        assert(closed.contains(g.out[ids[k - 1]][j].1 as int));
    }
}

/// A node just added has no out-edge, so a search from it finds no edge:
/// in the graph after `add_node`, the search starts at the new node (it is
/// held, and is the last one equal to itself), and every walk from there
/// stays on it and ends at a node without out-edges.
pub proof fn law_new_node_reaches_no_edge<N, E>(g: GraphModel<N, E>, node: N, ids: Seq<int>, path: Seq<(E, N)>, e: E)
    requires
        graph_ok(g),
        walk_ok(
            GraphModel { nodes: g.nodes.push(node), out: g.out.push(Seq::empty()), inc: g.inc.push(Seq::empty()) },
            ids,
            path,
        ),
        ids[0] == g.nodes.len(),
    ensures
        g.nodes.push(node).contains(node),
        last_index_of(g.nodes.push(node), node) == g.nodes.len(),
        path.len() == 0,
        !has_edge(g.out.push(Seq::empty())[ids.last()], e),
{
    let h = GraphModel { nodes: g.nodes.push(node), out: g.out.push(Seq::empty()), inc: g.inc.push(Seq::empty()) };
    assert(g.nodes.push(node).drop_last() =~= g.nodes);
    assert(h.nodes[g.nodes.len() as int] == node);
    assert(h.out[g.nodes.len() as int] =~= Seq::<(E, usize)>::empty());
    if path.len() > 0 {
        assert(h.out[ids[0]].contains((path[0].0, ids[1] as usize)));
    }
}

/// In a breadth-first search where every node found closer than `d` has
/// been expanded, the `k`-th node of a chain from the start (`k <= d`) has
/// been found, at depth at most `k`.
proof fn lemma_bfs_level<N, E>(
    g: GraphModel<N, E>,
    ids: Seq<int>,
    visited: Set<int>,
    processed: Set<int>,
    depth: Map<int, nat>,
    d: int,
    k: int,
)
    requires
        chain(g, ids),
        visited.contains(ids[0]),
        depth[ids[0]] == 0,
        forall|w: int| #[trigger] visited.contains(w) && depth[w] < d ==> processed.contains(w),
        forall|w: int, j: int| processed.contains(w) && 0 <= j < g.out[w].len() ==> visited.contains(#[trigger] g.out[w][j].1 as int)
            && depth[g.out[w][j].1 as int] <= depth[w] + 1,
        0 <= k < ids.len(),
        k <= d,
    ensures
        visited.contains(ids[k]),
        depth[ids[k]] <= k,
    decreases k,
{
    if k > 0 {
        lemma_bfs_level(g, ids, visited, processed, depth, d, k - 1);
        assert(leads_to(g, ids[k - 1], ids[k]));
        let j = choose|j: int| 0 <= j < g.out[ids[k - 1]].len() && (#[trigger] g.out[ids[k - 1]][j]).1 == ids[k];
        assert(processed.contains(ids[k - 1]));
        assert(visited.contains(g.out[ids[k - 1]][j].1 as int));
    }
}

impl<N: Copy + PartialEq + std::fmt::Display, E: Copy + PartialEq> Graph<N, E> {
    /// Breadth-first search from `start_node` (the last node added equal to
    /// it) for an out-edge labelled `target_edge`. `Err` if the graph does
    /// not hold the node; `Ok(None)` if no node reachable from it has such
    /// an edge; else the path to the first node found with one: for each
    /// step, the edge taken and the node it leads to.
    #[verifier::rlimit(100)]
    #[verifier::spinoff_prover]
    pub fn bfs_node_to_edge(&self, start_node: &N, target_edge: &E) -> (r: Result<Option<Vec<(E, N)>>, String>)
        requires
            self.wf(),
            obeys_concrete_eq::<N>(),
            obeys_concrete_eq::<E>(),
        ensures
            r is Err <==> !self@.nodes.contains(*start_node),
            r matches Ok(Some(path)) ==> exists|ids: Seq<int>|
                #[trigger] walk_ok(self@, ids, path@) && ids[0] == last_index_of(self@.nodes, *start_node)
                    && has_edge(self@.out[ids.last()], *target_edge),
            r matches Ok(Some(path)) ==> forall|j: int| 0 <= j < path@.len() ==> (#[trigger] path@[j]).0 != *target_edge,
            r matches Ok(Some(path)) ==> forall|ids: Seq<int>|
                #[trigger] chain(self@, ids) && ids[0] == last_index_of(self@.nodes, *start_node) && ids.len()
                    <= path@.len() ==> !has_edge(self@.out[ids.last()], *target_edge),
            r matches Ok(Some(path)) ==> (has_edge(self@.out[last_index_of(self@.nodes, *start_node)], *target_edge)
                ==> path@.len() == 0),
            r matches Ok(None) ==> forall|ids: Seq<int>|
                #[trigger] chain(self@, ids) && ids[0] == last_index_of(self@.nodes, *start_node) ==> !has_edge(
                    self@.out[ids.last()],
                    *target_edge,
                ),
    {
        proof {
            lemma_last_index_of(self@.nodes, *start_node);
        }
        let start_node_idx = match self.find_node(start_node) {
            Some(nid) => nid,
            None => {
                return Err(missing_start_message(start_node));
            },
        };
        let ghost g = self@;
        let ghost n = g.nodes.len() as int;
        let ghost s = start_node_idx as int;
        let ghost tgt = *target_edge;
        let mut frontier: VecDeque<usize> = VecDeque::new();
        frontier.push_back(start_node_idx);
        let mut came_from: HashMap<usize, (usize, E)> = HashMap::new();
        let mut found_target = false;
        let mut current_node_idx: usize = 0;
        let ghost mut visited: Set<int> = set![s];
        let ghost mut processed: Set<int> = Set::empty();
        let ghost mut depth: Map<int, nat> = map![s => 0nat];
        let ghost mut lvl: int = 0;
        proof {
            vstd::set_lib::lemma_int_range(0, n);
            assert(frontier@[0] == start_node_idx);
        }
        while !found_target && frontier.len() > 0
            invariant
                self.wf(),
                obeys_concrete_eq::<E>(),
                g == self@,
                graph_ok(g),
                n == g.nodes.len(),
                0 <= s < n,
                s == start_node_idx,
                tgt == *target_edge,
                forall|j: int| 0 <= j < frontier@.len() ==> visited.contains(#[trigger] frontier@[j] as int),
                visited.finite(),
                visited.contains(s),
                forall|i: int| #[trigger] visited.contains(i) ==> 0 <= i < n,
                forall|x: usize| #[trigger] came_from@.contains_key(x) ==> visited.contains(x as int),
                forall|i: int| #[trigger] visited.contains(i) && i != s ==> came_from@.contains_key(i as usize),
                forall|x: usize| #[trigger] came_from@.contains_key(x) ==> {
                    &&& came_from@[x].0 < n
                    &&& g.out[came_from@[x].0 as int].contains((came_from@[x].1, x))
                    &&& visited.contains(came_from@[x].0 as int)
                },
                forall|i: int| #[trigger] visited.contains(i) ==> depth.contains_key(i),
                forall|x: usize| #[trigger] came_from@.contains_key(x) && x != s ==> depth[came_from@[x].0 as int] + 1 == depth[x as int],
                forall|x: usize| #[trigger] came_from@.contains_key(x) ==> came_from@[x].1 != tgt,
                depth[s] == 0,
                forall|u: int| #[trigger] processed.contains(u) ==> visited.contains(u) && !has_edge(g.out[u], tgt),
                forall|u: int, j: int| processed.contains(u) && 0 <= j < g.out[u].len() ==> visited.contains(#[trigger] g.out[u][j].1 as int)
                    && depth[g.out[u][j].1 as int] <= depth[u] + 1,
                forall|i: int| #[trigger] visited.contains(i) ==> processed.contains(i) || frontier@.contains(i as usize)
                    || (found_target && i == current_node_idx),
                found_target ==> visited.contains(current_node_idx as int) && has_edge(g.out[current_node_idx as int], tgt),
                found_target ==> !processed.contains(current_node_idx as int) && depth[current_node_idx as int] == lvl,
                forall|i: int| #[trigger] visited.contains(i) ==> depth[i] <= lvl + 1,
                forall|i: int| #[trigger] visited.contains(i) && !processed.contains(i) ==> lvl <= depth[i],
                forall|i: int| #[trigger] processed.contains(i) ==> depth[i] <= lvl,
                forall|i: int, j: int| !found_target && 0 <= i < j < frontier@.len() && !processed.contains(#[trigger] frontier@[i] as int)
                    && !processed.contains(#[trigger] frontier@[j] as int) ==> depth[frontier@[i] as int] <= depth[frontier@[j] as int],
                !processed.contains(s) ==> found_target || (frontier@.len() == 1 && frontier@[0] == s),
            decreases frontier@.len() + (n - visited.len()) + (if came_from@.contains_key(start_node_idx) { 0int } else { 1int }),
        {
            proof {
                vstd::set_lib::lemma_int_range(0, n);
                assert(visited.subset_of(vstd::set_lib::set_int_range(0, n)));
                vstd::set_lib::lemma_len_subset(visited, vstd::set_lib::set_int_range(0, n));
            }
            let ghost m0 = frontier@.len() + (n - visited.len()) + (if came_from@.contains_key(start_node_idx) { 0int } else { 1int });
            let ghost f0 = frontier@;
            current_node_idx = frontier.pop_front().unwrap();
            let u = current_node_idx;
            let ghost uproc = processed.contains(u as int);
            assert(visited.contains(f0[0] as int));
            proof {
                if !uproc {
                    assert forall|i: int| #[trigger] visited.contains(i) && !processed.contains(i) implies depth[u as int] <= depth[i] by {
                        if i != u as int {
                            assert(f0.contains(i as usize));
                            let j = choose|j: int| 0 <= j < f0.len() && f0[j] == i as usize;
                            assert(j != 0);
                            assert(!processed.contains(f0[0] as int) && !processed.contains(f0[j] as int));
                        }
                    }
                    lvl = depth[u as int] as int;
                }
                assert forall|i: int, j: int| 0 <= i < j < frontier@.len() && !processed.contains(#[trigger] frontier@[i] as int)
                    && !processed.contains(#[trigger] frontier@[j] as int) implies depth[frontier@[i] as int] <= depth[frontier@[j] as int] by {
                    assert(frontier@[i] == f0[i + 1] && frontier@[j] == f0[j + 1]);
                }
            }
            assert forall|i: int| #[trigger] visited.contains(i) implies processed.contains(i) || frontier@.contains(i as usize) || i == u by {
                if !processed.contains(i) {
                    assert(f0.contains(i as usize));
                    let j = choose|j: int| 0 <= j < f0.len() && f0[j] == i as usize;
                    if j > 0 {
                        assert(frontier@[j - 1] == i as usize);
                    }
                }
            }
            let edges = &self.edges_out[u];
            assert(edges@ == g.out[u as int]);
            let mut k: usize = 0;
            while k < edges.len() && !found_target
                invariant
                    self.wf(),
                    obeys_concrete_eq::<E>(),
                    g == self@,
                    graph_ok(g),
                    n == g.nodes.len(),
                    0 <= s < n,
                    s == start_node_idx,
                    tgt == *target_edge,
                    u == current_node_idx,
                    0 <= u < n,
                    edges@ == g.out[u as int],
                    k <= edges@.len(),
                    visited.contains(u as int),
                    forall|j: int| 0 <= j < frontier@.len() ==> visited.contains(#[trigger] frontier@[j] as int),
                    visited.finite(),
                    visited.contains(s),
                    forall|i: int| #[trigger] visited.contains(i) ==> 0 <= i < n,
                    forall|x: usize| #[trigger] came_from@.contains_key(x) ==> visited.contains(x as int),
                    forall|i: int| #[trigger] visited.contains(i) && i != s ==> came_from@.contains_key(i as usize),
                    forall|x: usize| #[trigger] came_from@.contains_key(x) ==> {
                        &&& came_from@[x].0 < n
                        &&& g.out[came_from@[x].0 as int].contains((came_from@[x].1, x))
                        &&& visited.contains(came_from@[x].0 as int)
                    },
                    forall|i: int| #[trigger] visited.contains(i) ==> depth.contains_key(i),
                    forall|x: usize| #[trigger] came_from@.contains_key(x) && x != s ==> depth[came_from@[x].0 as int] + 1 == depth[x as int],
                    forall|x: usize| #[trigger] came_from@.contains_key(x) ==> came_from@[x].1 != tgt,
                    depth[s] == 0,
                    forall|w: int| #[trigger] processed.contains(w) ==> visited.contains(w) && !has_edge(g.out[w], tgt),
                    forall|w: int, j: int| processed.contains(w) && 0 <= j < g.out[w].len() ==> visited.contains(#[trigger] g.out[w][j].1 as int)
                        && depth[g.out[w][j].1 as int] <= depth[w] + 1,
                    forall|i: int| #[trigger] visited.contains(i) ==> processed.contains(i) || frontier@.contains(i as usize) || i == u,
                    forall|j: int| 0 <= j < k ==> visited.contains(#[trigger] edges@[j].1 as int) && edges@[j].0 != tgt
                        && (!uproc ==> depth[edges@[j].1 as int] <= depth[u as int] + 1),
                    uproc == processed.contains(u as int),
                    !uproc ==> depth[u as int] == lvl,
                    forall|i: int| #[trigger] visited.contains(i) ==> depth[i] <= lvl + 1,
                    forall|i: int| #[trigger] visited.contains(i) && !processed.contains(i) ==> lvl <= depth[i],
                    forall|i: int| #[trigger] processed.contains(i) ==> depth[i] <= lvl,
                    forall|i: int, j: int| 0 <= i < j < frontier@.len() && !processed.contains(#[trigger] frontier@[i] as int)
                        && !processed.contains(#[trigger] frontier@[j] as int) && frontier@[i] != u && frontier@[j] != u
                        ==> depth[frontier@[i] as int] <= depth[frontier@[j] as int],
                    !processed.contains(s) ==> u == s,
                    found_target ==> k < edges@.len() && edges@[k as int].0 == tgt,
                    frontier@.len() + (n - visited.len()) + (if came_from@.contains_key(start_node_idx) { 0int } else { 1int }) == m0 - 1,
                decreases edges@.len() - k + (if found_target { 0int } else { 1int }),
            {
                proof {
                    reveal(obeys_concrete_eq);
                }
                let (edge, to_node_idx) = edges[k];
                assert(to_node_idx < n);
                if edge == *target_edge {
                    found_target = true;
                } else {
                    if !came_from.contains_key(&to_node_idx) {
                        let ghost fr = frontier@;
                        let ghost cf = came_from@;
                        let ghost vs = visited;
                        frontier.push_back(to_node_idx);
                        came_from.insert(to_node_idx, (current_node_idx, edge));
                        proof {
                            assert(g.out[u as int].contains((edge, to_node_idx))) by {
                                assert(g.out[u as int][k as int] == (edge, to_node_idx));
                            }
                            assert(g.out[u as int][k as int].1 == to_node_idx);
                            if to_node_idx as int != s {
                                assert(!vs.contains(to_node_idx as int));
                                if uproc {
                                    assert(vs.contains(g.out[u as int][k as int].1 as int));
                                }
                                depth = depth.insert(to_node_idx as int, (depth[u as int] + 1) as nat);
                            }
                            visited = visited.insert(to_node_idx as int);
                            assert forall|i: int| #[trigger] visited.contains(i) implies processed.contains(i) || frontier@.contains(i as usize) || i == u by {
                                if i == to_node_idx as int {
                                    assert(frontier@[fr.len() as int] == to_node_idx);
                                } else if fr.contains(i as usize) {
                                    let j = choose|j: int| 0 <= j < fr.len() && fr[j] == i as usize;
                                    assert(frontier@[j] == i as usize);
                                }
                            }
                            assert forall|j: int| 0 <= j < frontier@.len() implies visited.contains(#[trigger] frontier@[j] as int) by {
                                if j < fr.len() {
                                    assert(frontier@[j] == fr[j]);
                                }
                            }
                            assert forall|i: int, j: int| 0 <= i < j < frontier@.len() && !processed.contains(#[trigger] frontier@[i] as int)
                                && !processed.contains(#[trigger] frontier@[j] as int) && frontier@[i] != u && frontier@[j] != u
                                implies depth[frontier@[i] as int] <= depth[frontier@[j] as int] by {
                                assert(frontier@[i] == fr[i]);
                                if j < fr.len() {
                                    assert(frontier@[j] == fr[j]);
                                } else {
                                    assert(frontier@[j] == to_node_idx);
                                    assert(vs.contains(fr[i] as int));
                                }
                            }
                        }
                    }
                    k += 1;
                }
            }
            proof {
                if found_target && uproc {
                    assert(has_edge(g.out[u as int], tgt)) by {
                        assert(g.out[u as int][k as int].0 == tgt);
                    }
                }
                if !found_target {
                    processed = processed.insert(u as int);
                    assert forall|w: int, j: int| processed.contains(w) && 0 <= j < g.out[w].len() implies visited.contains(#[trigger] g.out[w][j].1 as int)
                        && depth[g.out[w][j].1 as int] <= depth[w] + 1 by {
                        if w == u as int {
                            assert(g.out[w][j] == edges@[j]);
                        }
                    }
                    assert forall|i: int, j: int| 0 <= i < j < frontier@.len() && !processed.contains(#[trigger] frontier@[i] as int)
                        && !processed.contains(#[trigger] frontier@[j] as int) implies depth[frontier@[i] as int] <= depth[frontier@[j] as int] by {
                        assert(frontier@[i] != u && frontier@[j] != u);
                    }
                    assert(!has_edge(g.out[u as int], tgt)) by {
                        if has_edge(g.out[u as int], tgt) {
                            let j = choose|j: int| 0 <= j < g.out[u as int].len() && (#[trigger] g.out[u as int][j]).0 == tgt;
                            assert(edges@[j].0 != tgt);
                        }
                    }
                } else {
                    assert(has_edge(g.out[u as int], tgt)) by {
                        assert(g.out[u as int][k as int].0 == tgt);
                    }
                }
            }
        }
        if !found_target {
            proof {
                assert forall|ids: Seq<int>| #[trigger] chain(self@, ids) && ids[0] == last_index_of(self@.nodes, *start_node) implies !has_edge(
                    self@.out[ids.last()],
                    *target_edge,
                ) by {
                    assert forall|w: int| #[trigger] visited.contains(w) implies processed.contains(w) by {
                        assert(!frontier@.contains(w as usize));
                        assert(!found_target);
                    }
                    assert forall|w: int, j: int| visited.contains(w) && 0 <= j < g.out[w].len() implies visited.contains(#[trigger] g.out[w][j].1 as int) by {
                        assert(processed.contains(w));
                    }
                    lemma_closed_holds_chain(g, visited, ids, ids.len() - 1);
                    assert(processed.contains(ids.last()));
                }
            }
            return Ok(None);
        }
        let ghost f = current_node_idx as int;
        let ghost d = depth[f] as int;
        proof {
            assert forall|ids: Seq<int>| #[trigger] chain(g, ids) && ids[0] == s && ids.len() <= d implies !has_edge(g.out[ids.last()], tgt) by {
                assert forall|w: int| #[trigger] visited.contains(w) && depth[w] < d implies processed.contains(w) by {}
                lemma_bfs_level(g, ids, visited, processed, depth, d, ids.len() - 1);
                assert(processed.contains(ids.last()));
            }
        }
        let mut path_rev: Vec<(E, N)> = Vec::new();
        let ghost mut tail: Seq<int> = Seq::empty();
        let mut cur = current_node_idx;
        proof {
            assert(walk_ok(g, seq![cur as int] + tail, path_rev@.reverse())) by {
                assert(seq![cur as int] + tail =~= seq![cur as int]);
                assert(path_rev@.reverse() =~= Seq::<(E, N)>::empty());
            }
        }
        while cur != start_node_idx
            invariant
                self.wf(),
                g == self@,
                graph_ok(g),
                n == g.nodes.len(),
                0 <= s < n,
                s == start_node_idx,
                visited.contains(cur as int),
                forall|i: int| #[trigger] visited.contains(i) ==> 0 <= i < n,
                forall|i: int| #[trigger] visited.contains(i) && i != s ==> came_from@.contains_key(i as usize),
                forall|x: usize| #[trigger] came_from@.contains_key(x) ==> {
                    &&& came_from@[x].0 < n
                    &&& g.out[came_from@[x].0 as int].contains((came_from@[x].1, x))
                    &&& visited.contains(came_from@[x].0 as int)
                },
                forall|i: int| #[trigger] visited.contains(i) ==> depth.contains_key(i),
                forall|x: usize| #[trigger] came_from@.contains_key(x) && x != s ==> depth[came_from@[x].0 as int] + 1 == depth[x as int],
                walk_ok(g, seq![cur as int] + tail, path_rev@.reverse()),
                (seq![cur as int] + tail).last() == f,
                has_edge(g.out[f], tgt),
                tgt == *target_edge,
                forall|x: usize| #[trigger] came_from@.contains_key(x) ==> came_from@[x].1 != tgt,
                depth[s] == 0,
                d == depth[f],
                path_rev@.len() + depth[cur as int] == d,
                forall|j: int| 0 <= j < path_rev@.len() ==> (#[trigger] path_rev@[j]).0 != tgt,
                forall|ids: Seq<int>| #[trigger] chain(g, ids) && ids[0] == s && ids.len() <= d ==> !has_edge(g.out[ids.last()], tgt),
            decreases depth[cur as int],
        {
            assert(came_from@.contains_key(cur));
            let (prev_node_idx, edge) = *came_from.get(&cur).unwrap();
            assert(came_from@[cur] == (prev_node_idx, edge));
            assert(g.out[prev_node_idx as int].contains((edge, cur)));
            let ghost ids0 = seq![cur as int] + tail;
            let ghost p0 = path_rev@.reverse();
            let node = self.nodes[cur];
            path_rev.push((edge, node));
            proof {
                let ids1 = seq![prev_node_idx as int] + ids0;
                let p1 = path_rev@.reverse();
                assert(p1 =~= seq![(edge, node)] + p0);
                assert(walk_ok(g, ids1, p1)) by {
                    assert forall|j: int| 0 <= j < p1.len() implies g.out[ids1[j]].contains((#[trigger] p1[j].0, ids1[j + 1] as usize))
                        && g.nodes[ids1[j + 1]] == p1[j].1 by {
                        if j > 0 {
                            assert(p1[j] == p0[j - 1]);
                            assert(ids1[j] == ids0[j - 1]);
                            assert(ids1[j + 1] == ids0[j]);
                        } else {
                            assert(ids1[1] == cur as int);
                            assert(ids1[0] == prev_node_idx as int);
                            assert(p1[0] == (edge, node));
                            assert(g.nodes[cur as int] == node);
                        }
                    }
                }
                tail = ids0;
                assert(seq![prev_node_idx as int] + tail =~= ids1);
            }
            cur = prev_node_idx;
        }
        let mut path: Vec<(E, N)> = Vec::new();
        let mut i = path_rev.len();
        while i > 0
            invariant
                i <= path_rev@.len(),
                path@ == path_rev@.reverse().take(path_rev@.len() - i),
            decreases i,
        {
            i -= 1;
            path.push(path_rev[i]);
            assert(path_rev@.reverse().take(path_rev@.len() - i) =~= path_rev@.reverse().take(path_rev@.len() - i - 1).push(path_rev@[i as int]));
        }
        assert(path@ =~= path_rev@.reverse());
        assert(forall|j: int| 0 <= j < path@.len() ==> (#[trigger] path@[j]).0 != *target_edge) by {
            assert forall|j: int| 0 <= j < path@.len() implies (#[trigger] path@[j]).0 != *target_edge by {
                assert(path@[j] == path_rev@[path_rev@.len() - 1 - j]);
            }
        }
        proof {
            if has_edge(g.out[s], tgt) {
                assert(chain(g, seq![s]));
            }
        }
        let ghost ids = seq![s] + tail;
        assert(walk_ok(self@, ids, path@) && ids[0] == last_index_of(self@.nodes, *start_node)
            && has_edge(self@.out[ids.last()], *target_edge));
        let ghost plen = path@.len();
        let r: Result<Option<Vec<(E, N)>>, String> = Ok(Some(path));
        assert(r matches Ok(Some(p)) && walk_ok(self@, ids, p@));
        r
    }
}

} // verus!
