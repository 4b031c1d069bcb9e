//! Breadth-first path resolution.
//!
//! [`resolve`] walks the dependency graph from one root, visiting each node
//! at most once, and returns one entry per reachable node: its `iid` (the
//! node index), whether the root depends on it directly, and the chain of
//! intermediate nodes through which it was discovered.

use vstd::prelude::*;
use vstd::set_lib::{lemma_int_range, lemma_len_subset, set_int_range};
use crate::graph::{is_walk, lemma_step_reachable, reachable_from, DependencyGraph};

verus! {

/// One reachable node, as the resolver reports it.
///
/// `path` lists the intermediate nodes between the root and this node, in
/// root-to-node order, excluding both endpoints; it is empty exactly when
/// the node is a direct dependency of the root.
pub struct ResolvedDependency {
    pub node: usize,
    pub direct: bool,
    pub path: Vec<usize>,
}

/// Every edge leaving a visited node leads to a visited node.
pub open spec fn closed_under_edges(g: DependencyGraph, visited: Seq<bool>) -> bool {
    forall|u: usize, w: usize|
        u < visited.len() && visited[u as int] && #[trigger] g.has_edge(u, w) && w < visited.len()
            ==> visited[w as int]
}

/// The predecessor array is a well-formed record of the traversal: every
/// visited non-root node was discovered along an edge from a visited node
/// one step closer to the root.
pub open spec fn pred_wf(
    g: DependencyGraph,
    root: usize,
    visited: Seq<bool>,
    pred: Seq<usize>,
    depth: Map<usize, nat>,
) -> bool {
    &&& depth.contains_key(root) && depth[root] == 0
    &&& forall|v: usize|
        v < visited.len() && #[trigger] visited[v as int] ==> depth.contains_key(v)
    &&& forall|v: usize|
        v < visited.len() && #[trigger] visited[v as int] && v != root ==> {
            &&& (pred[v as int] as int) < visited.len()
            &&& visited[pred[v as int] as int]
            &&& g.has_edge(pred[v as int], v)
            &&& depth[v] == depth[pred[v as int]] + 1
        }
}

/// State shared by every step of the traversal.
pub open spec fn bfs_inv(
    g: DependencyGraph,
    root: usize,
    visited: Seq<bool>,
    pred: Seq<usize>,
    queue: Seq<usize>,
    depth: Map<usize, nat>,
) -> bool {
    &&& visited.len() == g.node_count()
    &&& pred.len() == g.node_count()
    &&& visited[root as int]
    &&& queue.len() >= 1
    &&& queue[0] == root
    &&& queue.no_duplicates()
    &&& forall|i: int| 0 <= i < queue.len() ==> (#[trigger] queue[i]) < g.node_count()
    &&& forall|i: int| 0 <= i < queue.len() ==> visited[#[trigger] queue[i] as int]
    &&& forall|v: usize| v < visited.len() && #[trigger] visited[v as int] ==> queue.contains(v)
    &&& pred_wf(g, root, visited, pred, depth)
    &&& forall|v: usize|
        v < visited.len() && #[trigger] visited[v as int] && v != root ==> reachable_from(
            g,
            root,
            v,
        )
}

/// Everything [`bfs`] guarantees about its final state.
pub open spec fn bfs_post(
    g: DependencyGraph,
    root: usize,
    visited: Seq<bool>,
    pred: Seq<usize>,
    depth: Map<usize, nat>,
) -> bool {
    &&& visited.len() == g.node_count()
    &&& pred.len() == g.node_count()
    &&& visited[root as int]
    &&& closed_under_edges(g, visited)
    &&& pred_wf(g, root, visited, pred, depth)
    &&& forall|v: usize|
        v < visited.len() && #[trigger] visited[v as int] && v != root ==> reachable_from(
            g,
            root,
            v,
        )
    &&& forall|v: usize|
        v < visited.len() && v != root && g.has_edge(root, v) ==> visited[v as int] && pred[v as int]
            == root
}

/// A sequence of distinct values below `n` has at most `n` elements.
proof fn lemma_distinct_bounded_len(s: Seq<usize>, n: nat)
    requires
        s.no_duplicates(),
        forall|i: int| 0 <= i < s.len() ==> (#[trigger] s[i]) < n,
    ensures
        s.len() <= n,
{
    let f = |x: usize| x as int;
    assert(vstd::relations::injective(f));
    s.lemma_no_duplicates_injective(f);
    let t = s.map_values(f);
    t.unique_seq_to_set();
    vstd::seq_lib::seq_to_set_is_finite(t);
    assert(t.to_set().subset_of(set_int_range(0, n as int))) by {
        assert forall|x: int| t.to_set().contains(x) implies 0 <= x < n as int by {
            let i = choose|i: int| 0 <= i < t.len() && t[i] == x;
            assert(s[i] < n);
        }
    }
    lemma_int_range(0, n as int);
    lemma_len_subset(t.to_set(), set_int_range(0, n as int));
}

/// A `false` vector of the given length.
fn make_bool_vec(n: usize) -> (r: Vec<bool>)
    ensures
        r@.len() == n,
        forall|i: int| 0 <= i < n ==> !r@[i],
{
    let mut r: Vec<bool> = Vec::new();
    let mut i: usize = 0;
    while i < n
        invariant
            i <= n,
            r@.len() == i,
            forall|k: int| 0 <= k < i ==> !r@[k],
        decreases n - i,
    {
        r.push(false);
        i = i + 1;
    }
    r
}

/// A zero vector of the given length.
fn make_usize_vec(n: usize) -> (r: Vec<usize>)
    ensures
        r@.len() == n,
{
    let mut r: Vec<usize> = Vec::new();
    let mut i: usize = 0;
    while i < n
        invariant
            i <= n,
            r@.len() == i,
        decreases n - i,
    {
        r.push(0);
        i = i + 1;
    }
    r
}

/// Linear membership test on a vector of indices.
fn contains_index(xs: &Vec<usize>, x: usize) -> (r: bool)
    ensures
        r == xs@.contains(x),
{
    let mut i: usize = 0;
    while i < xs.len()
        invariant
            i <= xs@.len(),
            forall|k: int| 0 <= k < i ==> xs@[k] != x,
        decreases xs@.len() - i,
    {
        if xs[i] == x {
            return true;
        }
        i = i + 1;
    }
    false
}

/// Along a walk that starts at a visited node, every node is visited once
/// the visited set is closed under edges.
proof fn lemma_walk_visited(g: DependencyGraph, visited: Seq<bool>, p: Seq<usize>)
    requires
        g.wf(),
        visited.len() == g.node_count(),
        closed_under_edges(g, visited),
        is_walk(g, p),
        p.len() >= 1,
        (p[0] as int) < visited.len(),
        visited[p[0] as int],
    ensures
        (p[p.len() - 1] as int) < visited.len(),
        visited[p[p.len() - 1] as int],
    decreases p.len(),
{
    if p.len() >= 2 {
        let q = p.drop_last();
        assert forall|i: int| 0 <= i < q.len() - 1 implies #[trigger] g.has_edge(
            q[i],
            q[i + 1],
        ) by {
            assert(g.has_edge(p[i], p[i + 1]));
        }
        lemma_walk_visited(g, visited, q);
        let j = p.len() - 2;
        assert(g.has_edge(p[j], p[j + 1]));
        let u = p[p.len() - 2];
        let w = p[p.len() - 1];
        assert(g.has_edge(u, w));
        let k = choose|k: int|
            0 <= k < g.adjacency@[u as int]@.len() && g.adjacency@[u as int]@[k] == w;
        assert((g.adjacency@[u as int]@[k] as int) < g.node_count());
    }
}

/// Appending one more edge to a walk keeps it a walk.
proof fn lemma_walk_push(g: DependencyGraph, w: Seq<usize>, v: usize)
    requires
        is_walk(g, w),
        w.len() >= 1,
        g.has_edge(w[w.len() - 1], v),
    ensures
        is_walk(g, w.push(v)),
{
    let q = w.push(v);
    assert forall|i: int| 0 <= i < q.len() - 1 implies #[trigger] g.has_edge(q[i], q[i + 1]) by {
        if i < w.len() - 1 {
            assert(g.has_edge(w[i], w[i + 1]));
        } else {
            assert(q[i] == w[w.len() - 1]);
        }
    }
}

/// Scan the adjacency list of one dequeued node `u`, marking and enqueuing
/// the neighbors seen for the first time.
#[verifier::rlimit(60)]
fn scan_node(
    g: &DependencyGraph,
    root: usize,
    u: usize,
    visited: &mut Vec<bool>,
    pred: &mut Vec<usize>,
    queue: &mut Vec<usize>,
    depth_in: Ghost<Map<usize, nat>>,
) -> (depth_out: Ghost<Map<usize, nat>>)
    requires
        g.wf(),
        root < g.node_count(),
        u < g.node_count(),
        old(visited)@[u as int],
        bfs_inv(*g, root, old(visited)@, old(pred)@, old(queue)@, depth_in@),
        // the root is scanned first, before anything else was discovered
        u == root ==> forall|v: usize|
            v < old(visited)@.len() && #[trigger] old(visited)@[v as int] && v != root ==> old(pred)@[v as int] == root,
        u != root ==> forall|v: usize|
            v < old(visited)@.len() && v != root && g.has_edge(root, v) ==> old(visited)@[v as int] && old(pred)@[v as int] == root,
    ensures
        bfs_inv(*g, root, final(visited)@, final(pred)@, final(queue)@, depth_out@),
        old(queue)@.is_prefix_of(final(queue)@),
        // everything previously visited still is, with its predecessor kept
        forall|v: usize|
            v < final(visited)@.len() && #[trigger] old(visited)@[v as int] ==> final(visited)@[v as int],
        forall|v: usize|
            v < final(visited)@.len() && #[trigger] old(visited)@[v as int] && v != root ==> final(pred)@[v as int] == old(pred)@[v as int],
        // after the scan every neighbor of `u` is visited
        forall|k: int|
            0 <= k < g.adjacency@[u as int]@.len() ==> final(visited)@[#[trigger] g.adjacency@[u as int]@[k] as int],
        forall|v: usize|
            v < final(visited)@.len() && v != root && g.has_edge(root, v) && (u == root || old(visited)@[v as int]) ==> final(visited)@[v as int] && final(pred)@[v as int] == root,
{
    let ghost mut depth: Map<usize, nat> = depth_in@;
    let ghost n = g.node_count();
    let mut j: usize = 0;
    while j < g.adjacency[u].len()
        invariant
            g.wf(),
            root < n,
            u < n,
            n == g.node_count(),
            j <= g.adjacency@[u as int]@.len(),
            visited@[u as int],
            bfs_inv(*g, root, visited@, pred@, queue@, depth),
            old(queue)@.is_prefix_of(queue@),
            forall|v: usize|
                v < n && #[trigger] old(visited)@[v as int] ==> visited@[v as int],
            forall|v: usize|
                v < n && #[trigger] old(visited)@[v as int] && v != root ==> pred@[v as int] == old(pred)@[v as int],
            forall|k: int|
                0 <= k < j ==> visited@[#[trigger] g.adjacency@[u as int]@[k] as int],
            u == root ==> forall|v: usize|
                v < n && #[trigger] visited@[v as int] && v != root ==> pred@[v as int] == root,
            u != root ==> forall|v: usize|
                v < n && v != root && g.has_edge(root, v) ==> visited@[v as int] && pred@[v as int]
                    == root,
        decreases g.adjacency@[u as int]@.len() - j,
    {
        let v = g.adjacency[u][j];
        assert(g.has_edge(u, v));
        if !visited[v] {
            visited[v] = true;
            pred[v] = u;
            proof {
                depth = depth.insert(v, (depth[u] + 1) as nat);
                lemma_step_reachable(*g, root, u, v);
                assert forall|w: usize| w < n && visited@[w as int] implies queue@.push(
                    v,
                ).contains(w) by {
                    if w == v {
                        assert(queue@.push(v)[queue@.len() as int] == v);
                    } else {
                        assert(queue@.contains(w));
                        let i = choose|i: int| 0 <= i < queue@.len() && queue@[i] == w;
                        assert(queue@.push(v)[i] == w);
                    }
                }
            }
            queue.push(v);
        }
        j = j + 1;
    }
    Ghost(depth)
}

/// Breadth-first traversal from `root`, recording for each newly discovered
/// node the edge along which it was first seen.
#[verifier::rlimit(60)]
fn bfs(g: &DependencyGraph, root: usize) -> (r: (Vec<bool>, Vec<usize>, Ghost<Map<usize, nat>>))
    requires
        g.wf(),
        root < g.node_count(),
    ensures
        bfs_post(*g, root, r.0@, r.1@, r.2@),
{
    let n = g.packages.len();
    let mut visited = make_bool_vec(n);
    let mut pred = make_usize_vec(n);
    let ghost mut depth: Map<usize, nat> = Map::empty().insert(root, 0nat);
    visited[root] = true;
    let mut queue: Vec<usize> = Vec::new();
    queue.push(root);
    let mut head: usize = 0;
    proof {
        assert(queue@[0] == root);
        assert forall|v: usize| v < n && visited@[v as int] implies queue@.contains(v) by {
            assert(v == root);
        }
    }
    while head < queue.len()
        invariant
            g.wf(),
            root < n,
            n == g.node_count(),
            head <= queue@.len(),
            head == 0 ==> queue@.len() == 1,
            bfs_inv(*g, root, visited@, pred@, queue@, depth),
            // processed nodes have all their out-edges visited
            forall|i: int, k: int|
                0 <= i < head && 0 <= k < g.adjacency@[queue@[i] as int]@.len()
                    ==> visited@[#[trigger] g.adjacency@[queue@[i] as int]@[k] as int],
            head >= 1 ==> forall|v: usize|
                v < n && v != root && g.has_edge(root, v) ==> visited@[v as int] && pred@[v as int]
                    == root,
        decreases n - head,
    {
        proof {
            lemma_distinct_bounded_len(queue@, n as nat);
        }
        let u = queue[head];
        proof {
            if u == root {
                // the root sits at the head of the queue only before anything
                // else was discovered
                assert(head == 0);
                assert forall|v: usize|
                    v < n && #[trigger] visited@[v as int] && v != root implies pred@[v as int]
                    == root by {
                    assert(queue@.contains(v));
                    let i = choose|i: int| 0 <= i < queue@.len() && queue@[i] == v;
                    assert(false);
                }
            }
        }
        let ghost prev_queue = queue@;
        let ghost prev_visited = visited@;
        let Ghost(depth2) = scan_node(g, root, u, &mut visited, &mut pred, &mut queue, Ghost(depth));
        proof {
            depth = depth2;
            assert forall|i: int, k: int|
                0 <= i < head + 1 && 0 <= k < g.adjacency@[queue@[i] as int]@.len() implies visited@[#[trigger] g.adjacency@[queue@[i] as int]@[k] as int] by {
                assert(prev_queue =~= queue@.subrange(0, prev_queue.len() as int));
                assert(queue@[i] == prev_queue[i]);
                if i < head {
                    assert(prev_visited[g.adjacency@[prev_queue[i] as int]@[k] as int]);
                } else {
                    assert(queue@[i] == u);
                }
            }
        }
        head = head + 1;
    }
    proof {
        assert forall|u: usize, w: usize|
            u < visited@.len() && visited@[u as int] && #[trigger] g.has_edge(u, w) && w
                < visited@.len() implies visited@[w as int] by {
            let i = choose|i: int| 0 <= i < queue@.len() && queue@[i] == u;
            let k = choose|k: int|
                0 <= k < g.adjacency@[u as int]@.len() && g.adjacency@[u as int]@[k] == w;
            assert(visited@[g.adjacency@[queue@[i] as int]@[k] as int]);
        }
    }
    (visited, pred, Ghost(depth))
}

/// Walk the predecessor record from `start` back to the root and return the
/// chain in root-to-node order: the ancestors of `start`, `start` included,
/// the root excluded.
#[verifier::rlimit(60)]
fn build_path(
    g: &DependencyGraph,
    root: usize,
    visited: &Vec<bool>,
    pred: &Vec<usize>,
    Ghost(depth): Ghost<Map<usize, nat>>,
    start: usize,
) -> (path: Vec<usize>)
    requires
        g.wf(),
        root < g.node_count(),
        start < g.node_count(),
        visited@.len() == g.node_count(),
        pred@.len() == g.node_count(),
        visited@[root as int],
        visited@[start as int],
        pred_wf(*g, root, visited@, pred@, depth),
    ensures
        (path@.len() == 0) <==> (start == root),
        path@.len() > 0 ==> path@[path@.len() - 1] == start,
        is_walk(*g, seq![root] + path@),
        !path@.contains(root),
        forall|i: int|
            0 <= i < path@.len() ==> (#[trigger] path@[i]) < g.node_count()
                && visited@[path@[i] as int] && path@[i] != root && depth[path@[i]] <= depth[start],
{
    let ghost n = g.node_count();
    let mut rev: Vec<usize> = Vec::new();
    let mut x = start;
    while x != root
        invariant
            g.wf(),
            root < n,
            n == g.node_count(),
            visited@.len() == n,
            pred@.len() == n,
            visited@[root as int],
            pred_wf(*g, root, visited@, pred@, depth),
            x < n,
            visited@[x as int],
            depth[x] <= depth[start],
            rev@.len() == 0 ==> x == start,
            rev@.len() > 0 ==> rev@[0] == start,
            rev@.len() > 0 ==> g.has_edge(x, rev@[rev@.len() - 1]),
            rev@.len() > 0 ==> depth[x] < depth[rev@[rev@.len() - 1]],
            forall|i: int| 0 <= i < rev@.len() - 1 ==> #[trigger] g.has_edge(rev@[i + 1], rev@[i]),
            forall|i: int|
                0 <= i < rev@.len() ==> (#[trigger] rev@[i]) < n && visited@[rev@[i] as int]
                    && rev@[i] != root && depth[rev@[i]] <= depth[start],
        decreases depth[x],
    {
        rev.push(x);
        x = pred[x];
    }
    let mut path: Vec<usize> = Vec::new();
    let mut i = rev.len();
    while i > 0
        invariant
            i <= rev@.len(),
            path@.len() == rev@.len() - i,
            forall|k: int| 0 <= k < path@.len() ==> path@[k] == rev@[rev@.len() - 1 - k],
        decreases i,
    {
        i = i - 1;
        path.push(rev[i]);
    }
    proof {
        let w = seq![root] + path@;
        assert forall|i: int| 0 <= i < w.len() - 1 implies #[trigger] g.has_edge(
            w[i],
            w[i + 1],
        ) by {
            if i == 0 {
                assert(w[0] == root);
                assert(path@[0] == rev@[rev@.len() - 1]);
                assert(g.has_edge(x, rev@[rev@.len() - 1]));
            } else {
                assert(w[i] == path@[i - 1]);
                assert(path@[i - 1] == rev@[rev@.len() - i]);
                assert(path@[i] == rev@[rev@.len() - 1 - i]);
                let j = rev@.len() - 1 - i;
                assert(g.has_edge(rev@[j + 1], rev@[j]));
            }
        }
        if path@.contains(root) {
            let k = choose|k: int| 0 <= k < path@.len() && path@[k] == root;
            assert(rev@[rev@.len() - 1 - k] == root);
        }
        if rev@.len() > 0 {
            assert(path@[path@.len() - 1] == rev@[0]);
        }
        if start == root && rev@.len() > 0 {
            assert(rev@[0] == root);
        }
    }
    path
}

/// Find a visited predecessor of the root itself, preferring a self-edge, so
/// that a root caught in a dependency cycle is reported like any other node.
fn find_root_pred(g: &DependencyGraph, root: usize, visited: &Vec<bool>) -> (r: Option<usize>)
    requires
        g.wf(),
        root < g.node_count(),
        visited@.len() == g.node_count(),
        visited@[root as int],
    ensures
        match r {
            Some(u) => u < g.node_count() && visited@[u as int] && g.has_edge(u, root) && (g.has_edge(
                root,
                root,
            ) ==> u == root),
            None => forall|u: usize|
                u < g.node_count() && #[trigger] visited@[u as int] ==> !g.has_edge(u, root),
        },
{
    if contains_index(&g.adjacency[root], root) {
        return Some(root);
    }
    let n = g.packages.len();
    let mut u: usize = 0;
    while u < n
        invariant
            g.wf(),
            root < n,
            n == g.node_count(),
            visited@.len() == n,
            u <= n,
            !g.has_edge(root, root),
            forall|w: usize| w < u && #[trigger] visited@[w as int] ==> !g.has_edge(w, root),
        decreases n - u,
    {
        if visited[u] {
            if contains_index(&g.adjacency[u], root) {
                return Some(u);
            }
        }
        u = u + 1;
    }
    None
}

/// What [`resolve`] promises of each entry it returns.
pub open spec fn entry_ok(g: DependencyGraph, root: usize, e: ResolvedDependency) -> bool {
    &&& e.node < g.node_count()
    &&& reachable_from(g, root, e.node)
    &&& e.direct == g.has_edge(root, e.node)
    &&& !e.path@.contains(root)
    &&& !e.path@.contains(e.node)
    &&& is_walk(g, seq![root] + e.path@ + seq![e.node])
    &&& ((e.path@.len() == 0) <==> e.direct)
    &&& forall|i: int|
        0 <= i < e.path@.len() ==> (#[trigger] e.path@[i]) < g.node_count() && reachable_from(
            g,
            root,
            e.path@[i],
        )
}

/// Resolve the dependency graph against one root.
///
/// Returns one entry per node reachable from `root` (over at least one
/// edge), in ascending node order, so every reachable node appears exactly
/// once. Each entry says whether the root depends on it directly — meaning
/// an edge from the root to it exists, no matter how the traversal found it
/// — and carries the chain of intermediate nodes along which the traversal
/// discovered it, which is empty exactly for direct dependencies and never
/// mentions the root or the node itself.
#[verifier::rlimit(100)]
pub fn resolve(g: &DependencyGraph, root: usize) -> (res: Vec<ResolvedDependency>)
    requires
        g.wf(),
        root < g.node_count(),
    ensures
        forall|a: int, b: int| 0 <= a < b < res@.len() ==> res@[a].node < res@[b].node,
        forall|k: int| 0 <= k < res@.len() ==> entry_ok(*g, root, #[trigger] res@[k]),
        forall|v: usize|
            v < g.node_count() && reachable_from(*g, root, v) ==> exists|k: int|
                0 <= k < res@.len() && (#[trigger] res@[k]).node == v,
{
    let ghost n = g.node_count();
    let (visited, pred, Ghost(depth)) = bfs(g, root);
    let root_pred = find_root_pred(g, root, &visited);
    proof {
        // a reachable node is visited: walk the witness path through the
        // closed visited set
        assert forall|v: usize| v < n && v != root && reachable_from(*g, root, v) implies visited@[v as int] by {
            let p = choose|p: Seq<usize>|
                p.len() >= 2 && p[0] == root && p[p.len() - 1] == v && #[trigger] is_walk(*g, p);
            lemma_walk_visited(*g, visited@, p);
        }
        if root_pred is None {
            if reachable_from(*g, root, root) {
                let p = choose|p: Seq<usize>|
                    p.len() >= 2 && p[0] == root && p[p.len() - 1] == root && #[trigger] is_walk(
                        *g,
                        p,
                    );
                let q = p.drop_last();
                assert forall|i: int| 0 <= i < q.len() - 1 implies #[trigger] g.has_edge(
                    q[i],
                    q[i + 1],
                ) by {
                    assert(g.has_edge(p[i], p[i + 1]));
                }
                lemma_walk_visited(*g, visited@, q);
                let j = p.len() - 2;
                assert(g.has_edge(p[j], p[j + 1]));
                assert(g.has_edge(p[p.len() - 2], root));
                assert(false);
            }
        } else {
            let u = root_pred->0;
            lemma_step_reachable(*g, root, u, root);
        }
    }
    let mut res: Vec<ResolvedDependency> = Vec::new();
    let mut v: usize = 0;
    while v < g.packages.len()
        invariant
            g.wf(),
            root < n,
            n == g.node_count(),
            v <= n,
            visited@.len() == n,
            pred@.len() == n,
            bfs_post(*g, root, visited@, pred@, depth),
            match root_pred {
                Some(u) => u < n && visited@[u as int] && g.has_edge(u, root) && (g.has_edge(
                    root,
                    root,
                ) ==> u == root) && reachable_from(*g, root, root),
                None => !reachable_from(*g, root, root),
            },
            forall|w: usize| w < n && w != root && reachable_from(*g, root, w) ==> visited@[w as int],
            forall|a: int, b: int| 0 <= a < b < res@.len() ==> res@[a].node < res@[b].node,
            forall|k: int| 0 <= k < res@.len() ==> (#[trigger] res@[k]).node < v,
            forall|k: int| 0 <= k < res@.len() ==> entry_ok(*g, root, #[trigger] res@[k]),
            forall|w: usize|
                w < v && reachable_from(*g, root, w) ==> exists|k: int|
                    0 <= k < res@.len() && (#[trigger] res@[k]).node == w,
        decreases n - v,
    {
        let ghost old_res = res@;
        if v == root {
            match root_pred {
                Some(u) => {
                    let path = build_path(g, root, &visited, &pred, Ghost(depth), u);
                    let direct = contains_index(&g.adjacency[root], root);
                    proof {
                        let w = seq![root] + path@;
                        if path@.len() == 0 {
                            assert(u == root);
                            assert(w =~= seq![root]);
                            assert(w[0] == root);
                        } else {
                            assert(w[w.len() - 1] == path@[path@.len() - 1]);
                            assert(path@[path@.len() - 1] == u);
                        }
                        lemma_walk_push(*g, w, root);
                        assert(w.push(root) =~= seq![root] + path@ + seq![root]);
                        if direct {
                            assert(u == root);
                        }
                        if path@.len() == 0 {
                            assert(g.has_edge(root, root));
                        }
                        // path elements are visited non-root nodes, hence reachable
                        assert forall|i: int| 0 <= i < path@.len() implies (#[trigger] path@[i])
                            < n && reachable_from(*g, root, path@[i]) by {
                            assert(visited@[path@[i] as int] && path@[i] != root);
                        }
                    }
                    let entry = ResolvedDependency { node: v, direct, path };
                    res.push(entry);
                },
                None => {},
            }
        } else {
            if visited[v] {
                let start = pred[v];
                let path = build_path(g, root, &visited, &pred, Ghost(depth), start);
                let direct = contains_index(&g.adjacency[root], v);
                proof {
                    let w = seq![root] + path@;
                    if path@.len() == 0 {
                        assert(start == root);
                        assert(w =~= seq![root]);
                    } else {
                        assert(w[w.len() - 1] == path@[path@.len() - 1]);
                    }
                    assert(g.has_edge(start, v));
                    lemma_walk_push(*g, w, v);
                    assert(w.push(v) =~= seq![root] + path@ + seq![v]);
                    if direct {
                        // an edge from the root means the root's own scan
                        // recorded itself as predecessor
                        assert(pred@[v as int] == root);
                    }
                    if path@.len() == 0 {
                        assert(g.has_edge(root, v));
                    }
                    // the node's own depth exceeds everything on its path, so
                    // the path cannot mention the node
                    assert(depth[v] == depth[start] + 1);
                    if path@.contains(v) {
                        let k = choose|k: int| 0 <= k < path@.len() && path@[k] == v;
                        assert(depth[path@[k]] <= depth[start]);
                        assert(false);
                    }
                    assert forall|i: int| 0 <= i < path@.len() implies (#[trigger] path@[i]) < n
                        && reachable_from(*g, root, path@[i]) by {
                        assert(visited@[path@[i] as int] && path@[i] != root);
                    }
                }
                let entry = ResolvedDependency { node: v, direct, path };
                res.push(entry);
            }
        }
        proof {
            assert forall|w: usize| w < v + 1 && reachable_from(*g, root, w) implies exists|k: int|
                0 <= k < res@.len() && (#[trigger] res@[k]).node == w by {
                if w < v {
                    let k = choose|k: int| 0 <= k < old_res.len() && old_res[k].node == w;
                    assert(res@[k].node == w);
                } else {
                    assert(res@[res@.len() - 1].node == w);
                }
            }
        }
        v = v + 1;
    }
    res
}

/// Some entry of a resolution names this node.
pub open spec fn appears(r: Seq<ResolvedDependency>, v: usize) -> bool {
    exists|k: int| 0 <= k < r.len() && (#[trigger] r[k]).node == v
}

/// Two strictly ascending entry lists with the same membership name the
/// same nodes in the same places.
proof fn lemma_sorted_same_members(r1: Seq<ResolvedDependency>, r2: Seq<ResolvedDependency>)
    requires
        forall|a: int, b: int| 0 <= a < b < r1.len() ==> r1[a].node < r1[b].node,
        forall|a: int, b: int| 0 <= a < b < r2.len() ==> r2[a].node < r2[b].node,
        forall|v: usize| #![trigger appears(r1, v)] #![trigger appears(r2, v)]
            appears(r1, v) <==> appears(r2, v),
    ensures
        r1.len() == r2.len(),
        forall|k: int| 0 <= k < r1.len() ==> (#[trigger] r1[k]).node == r2[k].node,
    decreases r1.len(),
{
    if r1.len() == 0 {
        if r2.len() > 0 {
            assert(0 <= 0 < r2.len() && r2[0].node == r2[0].node);
            assert(appears(r2, r2[0].node));
            let k = choose|k: int| 0 <= k < r1.len() && (#[trigger] r1[k]).node == r2[0].node;
            assert(false);
        }
    } else {
        if r2.len() == 0 {
            assert(0 <= 0 < r1.len() && r1[0].node == r1[0].node);
            assert(appears(r1, r1[0].node));
            let k = choose|k: int| 0 <= k < r2.len() && (#[trigger] r2[k]).node == r1[0].node;
            assert(false);
        }
        // each head is a member of the other list, and everything there is
        // at least that list's head, so the heads agree
        assert(0 <= 0 < r1.len() && r1[0].node == r1[0].node);
        assert(appears(r1, r1[0].node));
        assert(0 <= 0 < r2.len() && r2[0].node == r2[0].node);
        assert(appears(r2, r2[0].node));
        let k2 = choose|k: int| 0 <= k < r2.len() && (#[trigger] r2[k]).node == r1[0].node;
        let k1 = choose|k: int| 0 <= k < r1.len() && (#[trigger] r1[k]).node == r2[0].node;
        assert(r2[0].node <= r2[k2].node);
        assert(r1[0].node <= r1[k1].node);
        assert(r1[0].node == r2[0].node);
        let t1 = r1.subrange(1, r1.len() as int);
        let t2 = r2.subrange(1, r2.len() as int);
        assert forall|v: usize| appears(t1, v) implies appears(t2, v) by {
            let k = choose|k: int| 0 <= k < t1.len() && (#[trigger] t1[k]).node == v;
            assert(r1[k + 1].node == v);
            assert(appears(r1, v));
            assert(appears(r2, v));
            let m = choose|m: int| 0 <= m < r2.len() && (#[trigger] r2[m]).node == v;
            assert(r1[0].node < r1[k + 1].node);
            assert(m != 0);
            assert(t2[m - 1].node == v);
            assert(appears(t2, v));
        }
        assert forall|v: usize| appears(t2, v) implies appears(t1, v) by {
            let k = choose|k: int| 0 <= k < t2.len() && (#[trigger] t2[k]).node == v;
            assert(r2[k + 1].node == v);
            assert(appears(r2, v));
            assert(appears(r1, v));
            let m = choose|m: int| 0 <= m < r1.len() && (#[trigger] r1[m]).node == v;
            assert(r2[0].node < r2[k + 1].node);
            assert(m != 0);
            assert(t1[m - 1].node == v);
            assert(appears(t1, v));
        }
        assert forall|a: int, b: int| 0 <= a < b < t1.len() implies t1[a].node < t1[b].node by {
            assert(r1[a + 1].node < r1[b + 1].node);
        }
        assert forall|a: int, b: int| 0 <= a < b < t2.len() implies t2[a].node < t2[b].node by {
            assert(r2[a + 1].node < r2[b + 1].node);
        }
        lemma_sorted_same_members(t1, t2);
        assert forall|k: int| 0 <= k < r1.len() implies (#[trigger] r1[k]).node == r2[k].node by {
            if k > 0 {
                assert(t1[k - 1].node == t2[k - 1].node);
                assert(t1[k - 1] == r1[k]);
                assert(t2[k - 1] == r2[k]);
            }
        }
    }
}

/// Resolving an unchanged graph against the same root a second time yields
/// the same nodes in the same order, and for every node the same
/// direct-or-transitive classification and the same path emptiness:
/// everything [`resolve`] promises pins these down as a function of the
/// graph alone.
pub proof fn lemma_resolve_idempotent(
    g: DependencyGraph,
    root: usize,
    r1: Seq<ResolvedDependency>,
    r2: Seq<ResolvedDependency>,
)
    requires
        g.wf(),
        root < g.node_count(),
        forall|a: int, b: int| 0 <= a < b < r1.len() ==> r1[a].node < r1[b].node,
        forall|a: int, b: int| 0 <= a < b < r2.len() ==> r2[a].node < r2[b].node,
        forall|k: int| 0 <= k < r1.len() ==> entry_ok(g, root, #[trigger] r1[k]),
        forall|k: int| 0 <= k < r2.len() ==> entry_ok(g, root, #[trigger] r2[k]),
        forall|v: usize|
            v < g.node_count() && reachable_from(g, root, v) ==> exists|k: int|
                0 <= k < r1.len() && (#[trigger] r1[k]).node == v,
        forall|v: usize|
            v < g.node_count() && reachable_from(g, root, v) ==> exists|k: int|
                0 <= k < r2.len() && (#[trigger] r2[k]).node == v,
    ensures
        r1.len() == r2.len(),
        forall|k: int|
            0 <= k < r1.len() ==> (#[trigger] r1[k]).node == r2[k].node && r1[k].direct
                == r2[k].direct && ((r1[k].path@.len() == 0) <==> (r2[k].path@.len() == 0)),
{
    assert forall|v: usize| appears(r1, v) implies appears(r2, v) by {
        let k = choose|k: int| 0 <= k < r1.len() && (#[trigger] r1[k]).node == v;
        assert(entry_ok(g, root, r1[k]));
        let k2 = choose|k2: int| 0 <= k2 < r2.len() && (#[trigger] r2[k2]).node == v;
        assert(r2[k2].node == v);
    }
    assert forall|v: usize| appears(r2, v) implies appears(r1, v) by {
        let k = choose|k: int| 0 <= k < r2.len() && (#[trigger] r2[k]).node == v;
        assert(entry_ok(g, root, r2[k]));
        let k2 = choose|k2: int| 0 <= k2 < r1.len() && (#[trigger] r1[k2]).node == v;
        assert(r1[k2].node == v);
    }
    lemma_sorted_same_members(r1, r2);
    assert forall|k: int| 0 <= k < r1.len() implies (#[trigger] r1[k]).node == r2[k].node
        && r1[k].direct == r2[k].direct && ((r1[k].path@.len() == 0) <==> (r2[k].path@.len()
        == 0)) by {
        assert(entry_ok(g, root, r1[k]));
        assert(entry_ok(g, root, r2[k]));
    }
}

} // verus!
