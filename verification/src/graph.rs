//! The dependency graph the resolver walks.
//!
//! Nodes are packages; an edge `u -> v` means "u depends on v". A node whose
//! `source` is absent is locally defined (the scanned project or one of its
//! workspace members) and acts as a traversal root. Node indices double as
//! the run-scoped `iid` values the report refers to.

use vstd::prelude::*;

verus! {

/// One node of the dependency graph: a package identity.
pub struct GraphPackage {
    pub name: String,
    pub version: String,
    /// Registry or repository the package came from; absent for packages
    /// defined locally (the project itself or a workspace member).
    pub source: Option<String>,
}

/// Directed dependency graph in adjacency-list form.
///
/// `adjacency[u]` lists the indices of the packages `u` depends on. The
/// index of a node is its `iid` for the lifetime of one resolution run.
pub struct DependencyGraph {
    pub packages: Vec<GraphPackage>,
    pub adjacency: Vec<Vec<usize>>,
}

impl DependencyGraph {
    /// Number of nodes.
    pub open spec fn node_count(self) -> nat {
        self.packages@.len()
    }

    /// Every adjacency list belongs to a node and every edge target exists.
    pub open spec fn wf(self) -> bool {
        &&& self.adjacency@.len() == self.packages@.len()
        &&& forall|u: int, k: int|
            0 <= u < self.adjacency@.len() && 0 <= k < self.adjacency@[u]@.len()
                ==> (#[trigger] self.adjacency@[u]@[k]) < self.packages@.len()
    }

    /// There is an edge from `u` to `v`.
    pub open spec fn has_edge(self, u: usize, v: usize) -> bool {
        &&& u < self.adjacency@.len()
        &&& self.adjacency@[u as int]@.contains(v)
    }

    /// Node `i` is locally defined, i.e. a root.
    pub open spec fn is_root(self, i: usize) -> bool {
        &&& i < self.packages@.len()
        &&& self.packages@[i as int].source is None
    }
}

/// `p` is a walk through `g`: consecutive elements are joined by edges.
pub open spec fn is_walk(g: DependencyGraph, p: Seq<usize>) -> bool {
    forall|i: int| 0 <= i < p.len() - 1 ==> #[trigger] g.has_edge(p[i], p[i + 1])
}

/// `v` can be reached from `root` by at least one edge.
///
/// The root itself counts as reachable only when some cycle leads back to
/// it; a node reached by the empty walk does not.
pub open spec fn reachable_from(g: DependencyGraph, root: usize, v: usize) -> bool {
    exists|p: Seq<usize>|
        p.len() >= 2 && p[0] == root && p[p.len() - 1] == v && #[trigger] is_walk(g, p)
}

/// Extending a reachable node by one edge stays reachable.
pub proof fn lemma_step_reachable(g: DependencyGraph, root: usize, u: usize, v: usize)
    requires
        reachable_from(g, root, u) || u == root,
        g.has_edge(u, v),
    ensures
        reachable_from(g, root, v),
{
    if u == root {
        let p = seq![root, v];
        assert(g.has_edge(p[0], p[1]));
        assert(is_walk(g, p));
        assert(p.len() >= 2 && p[0] == root && p[p.len() - 1] == v);
    } else {
        let p = choose|p: Seq<usize>|
            p.len() >= 2 && p[0] == root && p[p.len() - 1] == u && #[trigger] is_walk(g, p);
        let q = p.push(v);
        assert forall|i: int| 0 <= i < q.len() - 1 implies #[trigger] g.has_edge(
            q[i],
            q[i + 1],
        ) by {
            if i < p.len() - 1 {
                assert(g.has_edge(p[i], p[i + 1]));
            } else {
                assert(q[i] == p[p.len() - 1]);
            }
        }
        assert(q.len() >= 2 && q[0] == root && q[q.len() - 1] == v);
        assert(is_walk(g, q));
    }
}

} // verus!
