//! Cycles in a directed graph, found by depth-first search.
//!
//! A graph over the nodes `0..n` is given by the list of successors of each
//! node. The search colours a node grey while it is on the path from the
//! root, and black once all of its successors have been visited; an edge
//! into a grey node closes a cycle.

use vstd::prelude::*;

verus! {

/// Every successor is a node of the graph.
pub open spec fn graph_ok(adj: Seq<Vec<usize>>) -> bool {
    forall|u: int, k: int|
        0 <= u < adj.len() && 0 <= k < adj[u]@.len() ==> (#[trigger] adj[u]@[k]) < adj.len()
}

/// The graph has an edge from `u` to `v`.
pub open spec fn edge(adj: Seq<Vec<usize>>, u: int, v: int) -> bool {
    0 <= u < adj.len() && exists|k: int| 0 <= k < adj[u]@.len() && #[trigger] adj[u]@[k] == v
}

/// Each node of `path` has an edge to the next one.
pub open spec fn is_path(adj: Seq<Vec<usize>>, path: Seq<usize>) -> bool {
    forall|k: int|
        0 <= k && k + 1 < path.len() ==> edge(adj, (#[trigger] path[k]) as int, path[k + 1] as int)
}

/// `c` is a cycle: a path of at least one node whose last node has an edge
/// to its first.
pub open spec fn is_cycle(adj: Seq<Vec<usize>>, c: Seq<usize>) -> bool {
    &&& c.len() > 0
    &&& is_path(adj, c)
    &&& edge(adj, c.last() as int, c[0] as int)
}

/// The graph has no cycle.
pub open spec fn acyclic(adj: Seq<Vec<usize>>) -> bool {
    forall|c: Seq<usize>| !is_cycle(adj, c)
}

/// A moment of a search: the colour of each node (0 for a node not yet
/// visited, 1 for a node on the current path, 2 for a node that is done),
/// the current path from the root, and the cycles found so far.
pub struct Trace {
    pub color: Seq<u8>,
    pub path: Seq<usize>,
    pub cycles: Seq<Seq<usize>>,
}

/// The first position from `from` on at which `node` stands on the path;
/// the length of the path where it stands nowhere.
pub open spec fn first_index(path: Seq<usize>, node: usize, from: nat) -> nat
    decreases path.len() - from,
{
    if from >= path.len() || path[from as int] == node {
        from
    } else {
        first_index(path, node, from + 1)
    }
}

/// The search steps onto `node`.
pub open spec fn entered(st: Trace, node: usize) -> Trace {
    Trace { color: st.color.update(node as int, 1), path: st.path.push(node), cycles: st.cycles }
}

/// The search is done with `node`, the last node of the path.
pub open spec fn left(st: Trace, node: usize) -> Trace {
    Trace { color: st.color.update(node as int, 2), path: st.path.drop_last(), cycles: st.cycles }
}

/// The search meets `next` on the path: the path from `next` on is a cycle.
pub open spec fn closed(st: Trace, next: usize) -> Trace {
    Trace {
        color: st.color,
        path: st.path,
        cycles: st.cycles.push(
            st.path.subrange(first_index(st.path, next, 0) as int, st.path.len() as int),
        ),
    }
}

/// The search visits `node` and then, in order, each successor of it that
/// is not yet visited; an edge into the path closes a cycle. At most `depth`
/// nodes are stepped onto one below the other.
pub open spec fn explore(adj: Seq<Seq<usize>>, node: usize, st: Trace, depth: nat) -> Trace
    decreases depth, 0nat, 0nat,
{
    if depth == 0 {
        st
    } else {
        left(explore_from(adj, node, 0, entered(st, node), (depth - 1) as nat), node)
    }
}

/// The search follows the edges of `node` from the `k`-th on.
pub open spec fn explore_from(
    adj: Seq<Seq<usize>>,
    node: usize,
    k: nat,
    st: Trace,
    depth: nat,
) -> Trace
    decreases depth, 1nat, adj[node as int].len() - k,
{
    if k >= adj[node as int].len() {
        st
    } else {
        let next = adj[node as int][k as int];
        let met = if st.color[next as int] == 0 {
            explore(adj, next, st, depth)
        } else if st.color[next as int] == 1 {
            closed(st, next)
        } else {
            st
        };
        explore_from(adj, node, k + 1, met, depth)
    }
}

/// The search starts from each node from `v` on that is not yet visited,
/// in order.
pub open spec fn search_from(adj: Seq<Seq<usize>>, v: nat, st: Trace) -> Trace
    decreases adj.len() - v,
{
    if v >= adj.len() {
        st
    } else {
        search_from(
            adj,
            v + 1,
            if st.color[v as int] == 0 {
                explore(adj, v as usize, st, adj.len())
            } else {
                st
            },
        )
    }
}

/// The cycles that a depth-first search of the graph finds, in the order
/// in which it finds them. The search starts from the nodes in order and
/// follows the edges of a node in order; each edge that leads back into
/// the path it is reached on closes a cycle, the path from the node met.
pub open spec fn found_cycles(adj: Seq<Seq<usize>>) -> Seq<Seq<usize>> {
    search_from(
        adj,
        0,
        Trace {
            color: Seq::new(adj.len(), |v: int| 0u8),
            path: Seq::empty(),
            cycles: Seq::empty(),
        },
    ).cycles
}

/// The lists as sequences.
pub open spec fn list_views(lists: Seq<Vec<usize>>) -> Seq<Seq<usize>> {
    Seq::new(lists.len(), |i: int| lists[i]@)
}

/// How many of the first `n` nodes are not yet visited.
pub open spec fn unvisited(color: Seq<u8>, n: nat) -> nat
    decreases n,
{
    if n == 0 || n > color.len() {
        0
    } else if color[n - 1] == 0 {
        1 + unvisited(color, (n - 1) as nat)
    } else {
        unvisited(color, (n - 1) as nat)
    }
}

/// The state of a search.
struct Search {
    /// 0 for a node not yet visited, 1 for a node on the current path, 2 for
    /// a node that is done.
    color: Vec<u8>,
    /// The current path from the root.
    stack: Vec<usize>,
    /// The cycles found so far.
    cycles: Vec<Vec<usize>>,
    /// For each node that is done, when it was done.
    rank: Ghost<Seq<int>>,
    clock: Ghost<int>,
}

impl Search {
    /// The moment that the search is at.
    spec fn trace(&self) -> Trace {
        Trace { color: self.color@, path: self.stack@, cycles: list_views(self.cycles@) }
    }

    /// What holds of a search between any two steps.
    spec fn inv(&self, adj: Seq<Vec<usize>>) -> bool {
        &&& graph_ok(adj)
        &&& self.color@.len() == adj.len()
        &&& self.rank@.len() == adj.len()
        &&& forall|v: int| 0 <= v < adj.len() ==> (#[trigger] self.color@[v]) <= 2
        &&& forall|k: int| 0 <= k < self.stack@.len() ==> (#[trigger] self.stack@[k]) < adj.len()
        &&& forall|v: int|
            0 <= v < adj.len() ==> ((#[trigger] self.color@[v]) == 1 <==> self.stack@.contains(
                v as usize,
            ))
        &&& is_path(adj, self.stack@)
        &&& forall|i: int| 0 <= i < self.cycles@.len() ==> is_cycle(adj, (#[trigger] self.cycles@[i])@)
        &&& forall|v: int|
            0 <= v < adj.len() ==> ((#[trigger] self.color@[v]) == 2 <==> self.rank@[v] >= 0)
        &&& forall|v: int| 0 <= v < adj.len() ==> (#[trigger] self.rank@[v]) < self.clock@
        &&& self.clock@ >= 0
        &&& self.cycles@.len() == 0 ==> forall|u: int, k: int|
            0 <= u < adj.len() && self.color@[u] == 2 && 0 <= k < adj[u]@.len() ==> {
                let v = (#[trigger] adj[u]@[k]) as int;
                self.color@[v] == 2 && self.rank@[v] < self.rank@[u]
            }
    }

    /// What a step of the search leaves as it was: nodes that were done,
    /// their ranks, the nodes on the path, and the cycles found before.
    spec fn extends(&self, before: Search) -> bool {
        &&& self.color@.len() == before.color@.len()
        &&& self.stack@ == before.stack@
        &&& forall|v: int|
            0 <= v < before.color@.len() && (#[trigger] before.color@[v]) != 0 ==> self.color@[v]
                == before.color@[v]
        &&& forall|v: int|
            0 <= v < before.color@.len() && before.color@[v] == 0 ==> (#[trigger] self.color@[v])
                != 1
        &&& before.cycles@.len() <= self.cycles@.len()
    }
}

/// Colouring a node that was not visited leaves one unvisited node less.
proof fn lemma_unvisited_update(color: Seq<u8>, v: int, c: u8, n: nat)
    requires
        0 <= v < color.len(),
        n <= color.len(),
        color[v] == 0,
        c != 0,
    ensures
        unvisited(color.update(v, c), n) == if v < n {
            (unvisited(color, n) - 1) as nat
        } else {
            unvisited(color, n)
        },
        v < n ==> unvisited(color, n) > 0,
    decreases n,
{
    if n > 0 {
        lemma_unvisited_update(color, v, c, (n - 1) as nat);
    }
}

/// A step that uncolours nothing does not raise the number of unvisited nodes.
proof fn lemma_unvisited_monotone(before: Seq<u8>, after: Seq<u8>, n: nat)
    requires
        before.len() == after.len(),
        n <= before.len(),
        forall|v: int| 0 <= v < before.len() && (#[trigger] before[v]) != 0 ==> after[v] != 0,
    ensures
        unvisited(after, n) <= unvisited(before, n),
    decreases n,
{
    if n > 0 {
        lemma_unvisited_monotone(before, after, (n - 1) as nat);
    }
}

/// Where ranks fall along every edge, ranks fall along every path.
proof fn lemma_ranks_fall(adj: Seq<Vec<usize>>, rank: Seq<int>, path: Seq<usize>, j: int)
    requires
        graph_ok(adj),
        rank.len() == adj.len(),
        forall|u: int, k: int|
            0 <= u < adj.len() && 0 <= k < adj[u]@.len() ==> rank[(#[trigger] adj[u]@[k]) as int]
                < rank[u],
        is_path(adj, path),
        0 <= j < path.len(),
        path[0] < adj.len(),
    ensures
        path[j] < adj.len(),
        j > 0 ==> rank[path[j] as int] < rank[path[0] as int],
    decreases j,
{
    if j > 0 {
        lemma_ranks_fall(adj, rank, path, j - 1);
        assert(edge(adj, path[j - 1] as int, path[j] as int));
    }
}

/// A graph whose nodes can be ranked so that ranks fall along every edge
/// has no cycle.
pub proof fn lemma_ranked_is_acyclic(adj: Seq<Vec<usize>>, rank: Seq<int>)
    requires
        graph_ok(adj),
        rank.len() == adj.len(),
        forall|u: int, k: int|
            0 <= u < adj.len() && 0 <= k < adj[u]@.len() ==> rank[(#[trigger] adj[u]@[k]) as int]
                < rank[u],
    ensures
        acyclic(adj),
{
    assert forall|c: Seq<usize>| !is_cycle(adj, c) by {
        if is_cycle(adj, c) {
            let last = c.len() - 1;
            assert(edge(adj, c[last] as int, c[0] as int));
            let k = choose|k: int|
                0 <= k < adj[c[last] as int]@.len() && #[trigger] adj[c[last] as int]@[k] == c[0];
            assert(c[0] < adj.len());
            lemma_ranks_fall(adj, rank, c, last);
            assert(rank[adj[c[last] as int]@[k] as int] < rank[c[last] as int]);
        }
    }
}

/// The position of `node` on the path.
fn position(stack: &Vec<usize>, node: usize) -> (r: usize)
    requires
        stack@.contains(node),
    ensures
        r < stack@.len(),
        stack@[r as int] == node,
        r == first_index(stack@, node, 0),
{
    let mut i: usize = 0;
    while i < stack.len()
        invariant
            i <= stack.len(),
            stack@.contains(node),
            forall|j: int| 0 <= j < i ==> stack@[j] != node,
            first_index(stack@, node, 0) == first_index(stack@, node, i as nat),
        decreases stack.len() - i,
    {
        if stack[i] == node {
            return i;
        }
        i += 1;
    }
    proof {
        let w = choose|w: int| 0 <= w < stack@.len() && stack@[w] == node;
        assert(stack@[w] != node);
    }
    0
}

/// The path from position `from` to its end.
fn tail_of(stack: &Vec<usize>, from: usize) -> (r: Vec<usize>)
    requires
        from <= stack@.len(),
    ensures
        r@ == stack@.subrange(from as int, stack@.len() as int),
{
    let mut out: Vec<usize> = Vec::new();
    let mut i: usize = from;
    while i < stack.len()
        invariant
            from <= i <= stack.len(),
            out@ == stack@.subrange(from as int, i as int),
        decreases stack.len() - i,
    {
        out.push(stack[i]);
        proof {
            assert(stack@.subrange(from as int, i + 1) =~= stack@.subrange(
                from as int,
                i as int,
            ).push(stack@[i as int]));
        }
        i += 1;
    }
    out
}

/// Visits a node that was not visited, and everything that can be reached
/// from it through nodes not visited.
#[verifier::loop_isolation(false)]
fn visit(adj: &Vec<Vec<usize>>, node: usize, s: &mut Search, Ghost(depth): Ghost<nat>)
    requires
        old(s).inv(adj@),
        node < adj@.len(),
        old(s).color@[node as int] == 0,
        old(s).stack@.len() > 0 ==> edge(adj@, old(s).stack@.last() as int, node as int),
        depth >= unvisited(old(s).color@, old(s).color@.len()),
    ensures
        final(s).inv(adj@),
        final(s).extends(*old(s)),
        final(s).color@[node as int] == 2,
        final(s).trace() == explore(list_views(adj@), node, old(s).trace(), depth),
    decreases unvisited(old(s).color@, old(s).color@.len()),
{
    let ghost entry = *s;
    let ghost n = adj@.len();
    let ghost below = (depth - 1) as nat;
    let ghost lists = list_views(adj@);
    let ghost goal = explore_from(lists, node, 0, entered(entry.trace(), node), below);
    let total = adj.len();
    assert(n == total);
    s.color.set(node, 1);
    s.stack.push(node);
    proof {
        lemma_unvisited_update(entry.color@, node as int, 1, n);
        assert forall|v: int| 0 <= v < n implies ((#[trigger] s.color@[v]) == 1
            <==> s.stack@.contains(v as usize)) by {
            if v == node {
                assert(s.stack@[s.stack@.len() - 1] == node);
            } else {
                if entry.stack@.contains(v as usize) {
                    let w = choose|w: int|
                        0 <= w < entry.stack@.len() && entry.stack@[w] == v as usize;
                    assert(s.stack@[w] == v as usize);
                }
                if s.stack@.contains(v as usize) {
                    let w = choose|w: int| 0 <= w < s.stack@.len() && s.stack@[w] == v as usize;
                    assert(entry.stack@[w] == v as usize);
                }
            }
        }
        assert forall|k: int| 0 <= k && k + 1 < s.stack@.len() implies edge(
            adj@,
            (#[trigger] s.stack@[k]) as int,
            s.stack@[k + 1] as int,
        ) by {
            if k + 1 < entry.stack@.len() {
                assert(edge(adj@, entry.stack@[k] as int, entry.stack@[k + 1] as int));
            }
        }
        assert(s.inv(adj@));
        assert(s.trace() == entered(entry.trace(), node));
    }
    let mut k: usize = 0;
    while k < adj[node].len()
        invariant
            k <= adj@[node as int]@.len(),
            depth > 0,
            below == depth - 1,
            lists == list_views(adj@),
            explore_from(lists, node, k as nat, s.trace(), below) == goal,
            node < adj@.len(),
            n == adj@.len(),
            s.inv(adj@),
            s.stack@ == entry.stack@.push(node),
            s.color@.len() == n,
            entry.color@.len() == n,
            entry.inv(adj@),
            entry.color@[node as int] == 0,
            forall|v: int|
                0 <= v < n && (#[trigger] entry.color@[v]) != 0 ==> s.color@[v] == entry.color@[v],
            forall|v: int|
                0 <= v < n && entry.color@[v] == 0 && v != node ==> (#[trigger] s.color@[v]) != 1,
            s.color@[node as int] == 1,
            entry.cycles@.len() <= s.cycles@.len(),
            unvisited(s.color@, n) < unvisited(entry.color@, n),
            s.cycles@.len() == 0 ==> forall|j: int|
                0 <= j < k ==> s.color@[(#[trigger] adj@[node as int]@[j]) as int] == 2,
        decreases adj@[node as int]@.len() - k,
    {
        let next = adj[node][k];
        let ghost met = *s;
        proof {
            assert(adj@[node as int]@[k as int] < n);
            assert(edge(adj@, node as int, next as int));
        }
        if s.color[next] == 0 {
            let ghost before = *s;
            visit(adj, next, s, Ghost(below));
            proof {
                lemma_unvisited_monotone(before.color@, s.color@, n);
                assert forall|v: int| 0 <= v < n && (#[trigger] entry.color@[v]) != 0 implies s.color@[v]
                    == entry.color@[v] by {
                    assert(before.color@[v] == entry.color@[v]);
                }
                assert forall|j: int| 0 <= j < k + 1 && s.cycles@.len() == 0 implies s.color@[(
                #[trigger] adj@[node as int]@[j]) as int] == 2 by {
                    if j < k {
                        assert(before.color@[adj@[node as int]@[j] as int] == 2);
                    }
                }
            }
        } else if s.color[next] == 1 {
            let at = position(&s.stack, next);
            let cycle = tail_of(&s.stack, at);
            proof {
                assert forall|j: int| 0 <= j && j + 1 < cycle@.len() implies edge(
                    adj@,
                    (#[trigger] cycle@[j]) as int,
                    cycle@[j + 1] as int,
                ) by {
                    assert(edge(adj@, s.stack@[at + j] as int, s.stack@[at + j + 1] as int));
                }
                assert(cycle@.last() == node);
                assert(cycle@[0] == next);
                assert(is_cycle(adj@, cycle@));
            }
            let ghost before = *s;
            s.cycles.push(cycle);
            proof {
                assert forall|i: int| 0 <= i < s.cycles@.len() implies is_cycle(
                    adj@,
                    (#[trigger] s.cycles@[i])@,
                ) by {
                    if i < before.cycles@.len() {
                        assert(s.cycles@[i] == before.cycles@[i]);
                    }
                }
                assert(list_views(s.cycles@) =~= list_views(before.cycles@).push(cycle@));
                assert(s.trace() == closed(met.trace(), next));
            }
        } else {
            proof {
                assert(s.color@[next as int] == 2);
            }
        }
        proof {
            assert(lists[node as int] == adj@[node as int]@);
            assert(explore_from(lists, node, k as nat, met.trace(), below) == explore_from(
                lists,
                node,
                (k + 1) as nat,
                s.trace(),
                below,
            ));
        }
        k += 1;
    }
    let ghost done = *s;
    proof {
        assert(done.trace() == goal);
    }
    s.stack.pop();
    s.color.set(node, 2);
    proof {
        s.rank@ = done.rank@.update(node as int, done.clock@);
        s.clock@ = done.clock@ + 1;
        assert(s.stack@ =~= entry.stack@);
        assert(!entry.stack@.contains(node));
        assert forall|v: int| 0 <= v < n implies ((#[trigger] s.color@[v]) == 1
            <==> s.stack@.contains(v as usize)) by {
            if v != node {
                assert(done.color@[v] == s.color@[v]);
                if done.stack@.contains(v as usize) {
                    let w = choose|w: int|
                        0 <= w < done.stack@.len() && done.stack@[w] == v as usize;
                    assert(entry.stack@[w] == v as usize);
                }
                if entry.stack@.contains(v as usize) {
                    let w = choose|w: int|
                        0 <= w < entry.stack@.len() && entry.stack@[w] == v as usize;
                    assert(done.stack@[w] == v as usize);
                }
            }
        }
        assert forall|v: int| 0 <= v < n implies ((#[trigger] s.color@[v]) == 2 <==> s.rank@[v]
            >= 0) by {
            if v != node {
                assert(done.color@[v] == s.color@[v]);
                assert(done.color@[v] == 2 <==> done.rank@[v] >= 0);
            } else {
                assert(done.color@[v] == 1);
                assert(done.rank@[v] < 0);
            }
        }
        if s.cycles@.len() == 0 {
            assert forall|u: int, j: int|
                0 <= u < n && s.color@[u] == 2 && 0 <= j < adj@[u]@.len() implies {
                let v = (#[trigger] adj@[u]@[j]) as int;
                s.color@[v] == 2 && s.rank@[v] < s.rank@[u]
            } by {
                let v = adj@[u]@[j] as int;
                if u == node {
                    assert(done.color@[v] == 2);
                    assert(done.rank@[v] < done.clock@);
                } else {
                    assert(done.color@[u] == 2);
                    assert(done.color@[v] == 2 && done.rank@[v] < done.rank@[u]);
                }
            }
        }
        assert(is_path(adj@, s.stack@));
        assert(s.inv(adj@));
        assert(s.extends(entry));
        assert(s.stack@ =~= done.stack@.drop_last());
        assert(s.trace() == left(done.trace(), node));
    }
}

/// There are no more unvisited nodes than nodes.
proof fn lemma_unvisited_bound(color: Seq<u8>, n: nat)
    ensures
        unvisited(color, n) <= n,
    decreases n,
{
    if n > 0 {
        lemma_unvisited_bound(color, (n - 1) as nat);
    }
}

/// The cycles that a depth-first search of the graph finds: one for each
/// edge that leads back into the path it is reached on. Each of them is a
/// cycle of the graph, and none is found exactly when the graph has no
/// cycle.
pub fn find_cycles(adj: &Vec<Vec<usize>>) -> (cycles: Vec<Vec<usize>>)
    requires
        graph_ok(adj@),
    ensures
        list_views(cycles@) == found_cycles(list_views(adj@)),
        forall|i: int| 0 <= i < cycles@.len() ==> is_cycle(adj@, (#[trigger] cycles@[i])@),
        cycles@.len() == 0 <==> acyclic(adj@),
{
    let n = adj.len();
    let mut color: Vec<u8> = Vec::new();
    let mut i: usize = 0;
    while i < n
        invariant
            i <= n,
            color@.len() == i,
            forall|v: int| 0 <= v < i ==> (#[trigger] color@[v]) == 0,
        decreases n - i,
    {
        color.push(0);
        i += 1;
    }
    let mut s = Search {
        color,
        stack: Vec::new(),
        cycles: Vec::new(),
        rank: Ghost(Seq::new(n as nat, |v: int| -1int)),
        clock: Ghost(0int),
    };
    let ghost first = s.trace();
    proof {
        assert(first.color =~= Seq::new(adj@.len(), |v: int| 0u8));
        assert(first.cycles =~= Seq::<Seq<usize>>::empty());
        assert(first.path =~= Seq::<usize>::empty());
    }
    let mut v: usize = 0;
    while v < n
        invariant
            v <= n,
            n == adj@.len(),
            s.inv(adj@),
            s.stack@.len() == 0,
            forall|u: int| 0 <= u < v ==> (#[trigger] s.color@[u]) == 2,
            search_from(list_views(adj@), v as nat, s.trace()) == search_from(
                list_views(adj@),
                0,
                first,
            ),
        decreases n - v,
    {
        let ghost met = s;
        if s.color[v] == 0 {
            let ghost before = s;
            proof {
                lemma_unvisited_bound(s.color@, n as nat);
            }
            visit(adj, v, &mut s, Ghost(n as nat));
            proof {
                assert forall|u: int| 0 <= u < v + 1 implies (#[trigger] s.color@[u]) == 2 by {
                    if u < v {
                        assert(before.color@[u] == 2);
                    }
                }
            }
        } else {
            proof {
                assert(!s.stack@.contains(v));
                assert(s.color@[v as int] != 1);
            }
        }
        proof {
            assert(search_from(list_views(adj@), v as nat, met.trace()) == search_from(
                list_views(adj@),
                (v + 1) as nat,
                s.trace(),
            ));
        }
        v += 1;
    }
    proof {
        if s.cycles@.len() == 0 {
            assert forall|u: int, k: int| 0 <= u < adj@.len() && 0 <= k < adj@[u]@.len() implies s.rank@[(
            #[trigger] adj@[u]@[k]) as int] < s.rank@[u] by {
                assert(s.color@[u] == 2);
            }
            lemma_ranked_is_acyclic(adj@, s.rank@);
        } else {
            assert(is_cycle(adj@, s.cycles@[0]@));
        }
    }
    s.cycles
}

} // verus!
