//! Report assembly.
//!
//! Joins resolver output and normalizer output into one document: one
//! dependency file per graph root, and one finding per matched advisory,
//! its location enriched with the graph position of the matched package
//! where one exists. Pure transformation — no I/O, no clock; the scan
//! metadata block arrives ready-made from the caller.

use vstd::prelude::*;
use vstd::string::StringExecFns;
use crate::cargo_audit;
use crate::graph::{is_walk, reachable_from, DependencyGraph};
use crate::normalize::{normalized_core, report_vulnerability, string_eq};
use crate::report;
use crate::resolver::{entry_ok, resolve, ResolvedDependency};

verus! {

/// The node indices a dependency path names, in order.
pub open spec fn iids_of(path: Seq<report::IID>) -> Seq<usize> {
    path.map_values(|x: report::IID| x.iid)
}

/// The `iid` a dependency entry names.
pub open spec fn iid_of(d: report::Dependency) -> usize {
    match d.iid {
        Option::Some(w) => w,
        Option::None => 0,
    }
}

/// `path` is a real ancestor chain from `root` to `node`: a walk that
/// excludes both endpoints and is empty exactly when the root depends on the
/// node directly.
pub open spec fn path_ok(g: DependencyGraph, root: usize, node: usize, path: Seq<usize>) -> bool {
    &&& !path.contains(root)
    &&& !path.contains(node)
    &&& is_walk(g, seq![root] + path + seq![node])
    &&& ((path.len() == 0) <==> g.has_edge(root, node))
}

/// One dependency entry of a dependency file, checked against the graph:
/// it names a node reachable from `root`, carries that node's name, version
/// and index, says whether the root depends on it directly — an edge from
/// the root exists — and carries a real ancestor chain.
pub open spec fn dep_entry_ok(g: DependencyGraph, root: usize, d: report::Dependency) -> bool {
    d.iid matches Some(w) && {
        &&& w < g.node_count()
        &&& reachable_from(g, root, w)
        &&& d.package matches Some(p) && p.name matches Some(nm) && nm@ == g.packages@[w as int].name@
        &&& d.version matches Some(ver) && ver@ == g.packages@[w as int].version@
        &&& d.direct == Some(g.has_edge(root, w))
        &&& d.dependency_path matches Some(path) && path_ok(g, root, w, iids_of(path@))
    }
}

/// A complete dependency list for one root: every node reachable from the
/// root appears exactly once — the entries are in strictly ascending node
/// order — and nothing else appears.
pub open spec fn deps_ok(g: DependencyGraph, root: usize, ds: Seq<report::Dependency>) -> bool {
    &&& forall|k: int| 0 <= k < ds.len() ==> dep_entry_ok(g, root, #[trigger] ds[k])
    &&& forall|a: int, b: int| 0 <= a < b < ds.len() ==> iid_of(ds[a]) < iid_of(ds[b])
    &&& forall|v: usize|
        v < g.node_count() && reachable_from(g, root, v) ==> exists|k: int|
            0 <= k < ds.len() && (#[trigger] ds[k]).iid == Some(v)
}

/// In a complete dependency list, every node reachable from the root
/// appears, and at exactly one position; and no entry's path mentions the
/// root or the entry's own node.
pub proof fn lemma_deps_exactly_once(
    g: DependencyGraph,
    root: usize,
    ds: Seq<report::Dependency>,
    v: usize,
)
    requires
        deps_ok(g, root, ds),
        v < g.node_count(),
        reachable_from(g, root, v),
    ensures
        exists|k: int| 0 <= k < ds.len() && (#[trigger] ds[k]).iid == Some(v),
        forall|a: int, b: int|
            0 <= a < ds.len() && 0 <= b < ds.len() && (#[trigger] ds[a]).iid == Some(v) && (
            #[trigger] ds[b]).iid == Some(v) ==> a == b,
        forall|k: int|
            0 <= k < ds.len() && (#[trigger] ds[k]).iid == Some(v)
                ==> (ds[k].dependency_path matches Some(path) && !iids_of(path@).contains(root)
                && !iids_of(path@).contains(v)),
{
    assert forall|a: int, b: int|
        0 <= a < ds.len() && 0 <= b < ds.len() && (#[trigger] ds[a]).iid == Some(v) && (
        #[trigger] ds[b]).iid == Some(v) implies a == b by {
        if a < b {
            assert(iid_of(ds[a]) < iid_of(ds[b]));
        }
        if b < a {
            assert(iid_of(ds[b]) < iid_of(ds[a]));
        }
    }
    assert forall|k: int|
        0 <= k < ds.len() && (#[trigger] ds[k]).iid == Some(v) implies (
    ds[k].dependency_path matches Some(path) && !iids_of(path@).contains(root) && !iids_of(
        path@,
    ).contains(v)) by {
        assert(dep_entry_ok(g, root, ds[k]));
    }
}

/// The path label of a root's dependency file.
pub open spec fn file_label(name: Seq<char>, version: Seq<char>) -> Seq<char> {
    "Cargo.lock ("@ + name + " "@ + version + ")"@
}

/// One dependency file, checked against the graph.
pub open spec fn file_ok(g: DependencyGraph, root: usize, f: report::DependencyFile) -> bool {
    &&& f.path@ == file_label(
        g.packages@[root as int].name@,
        g.packages@[root as int].version@,
    )
    &&& f.package_manager@ == "cargo"@
    &&& deps_ok(g, root, f.dependencies@)
}

/// The root nodes among the first `n` nodes, in ascending order.
pub open spec fn roots_upto(g: DependencyGraph, n: int) -> Seq<usize>
    decreases n,
{
    if n <= 0 {
        Seq::empty()
    } else {
        roots_upto(g, n - 1) + if g.packages@[n - 1].source is None {
            seq![(n - 1) as usize]
        } else {
            Seq::empty()
        }
    }
}

/// All root nodes of the graph, in ascending order.
pub open spec fn root_nodes(g: DependencyGraph) -> Seq<usize> {
    roots_upto(g, g.packages@.len() as int)
}

proof fn lemma_roots_upto_exact(g: DependencyGraph, n: int)
    requires
        0 <= n <= g.packages@.len(),
    ensures
        forall|k: int|
            0 <= k < roots_upto(g, n).len() ==> g.is_root(#[trigger] roots_upto(g, n)[k])
                && (roots_upto(g, n)[k] as int) < n,
        forall|v: usize| (v as int) < n && g.is_root(v) ==> roots_upto(g, n).contains(v),
        forall|a: int, b: int|
            0 <= a < b < roots_upto(g, n).len() ==> roots_upto(g, n)[a] < roots_upto(g, n)[b],
    decreases n,
{
    if n > 0 {
        assert(g.packages@.len() <= usize::MAX) by {
            assert(g.packages.len() == g.packages@.len());
        }
        lemma_roots_upto_exact(g, n - 1);
        let prev = roots_upto(g, n - 1);
        let cur = roots_upto(g, n);
        if g.packages@[n - 1].source is None {
            assert(cur.len() == prev.len() + 1);
            assert(cur[cur.len() - 1] == (n - 1) as usize);
            assert(forall|i: int| 0 <= i < prev.len() ==> cur[i] == #[trigger] prev[i]);
        } else {
            assert(cur =~= prev);
        }
        assert forall|v: usize| (v as int) < n && g.is_root(v) implies cur.contains(v) by {
            if (v as int) < n - 1 {
                assert(prev.contains(v));
                let i = choose|i: int| 0 <= i < prev.len() && prev[i] == v;
                assert(cur[i] == v);
            } else {
                assert(cur[cur.len() - 1] == v);
            }
        }
        assert forall|k: int| 0 <= k < cur.len() implies g.is_root(#[trigger] cur[k]) && (
        cur[k] as int) < n by {
            if g.packages@[n - 1].source is None && k == cur.len() - 1 {
                assert(cur[k] == (n - 1) as usize);
                assert(g.is_root((n - 1) as usize));
            } else {
                assert(cur[k] == prev[k]);
                assert(g.is_root(prev[k]) && (prev[k] as int) < n - 1);
            }
        }
        assert forall|a: int, b: int| 0 <= a < b < cur.len() implies cur[a] < cur[b] by {
            if g.packages@[n - 1].source is None && b == cur.len() - 1 {
                assert(cur[a] == prev[a]);
                assert((prev[a] as int) < n - 1);
                assert(cur[b] == (n - 1) as usize);
            } else {
                assert(cur[a] == prev[a] && cur[b] == prev[b]);
                assert(prev[a] < prev[b]);
            }
        }
    }
}

/// One dependency file stands for each locally defined package — the roots —
/// in ascending node order, and for nothing else.
pub proof fn lemma_root_nodes_exact(g: DependencyGraph)
    ensures
        forall|k: int|
            0 <= k < root_nodes(g).len() ==> g.is_root(#[trigger] root_nodes(g)[k]),
        forall|v: usize| v < g.packages@.len() && g.is_root(v) ==> root_nodes(g).contains(v),
        forall|a: int, b: int|
            0 <= a < b < root_nodes(g).len() ==> root_nodes(g)[a] < root_nodes(g)[b],
{
    lemma_roots_upto_exact(g, g.packages@.len() as int);
}

/// `w` is the lowest-numbered node carrying this package name and version.
pub open spec fn first_match(
    g: DependencyGraph,
    name: Seq<char>,
    version: Seq<char>,
    w: usize,
) -> bool {
    &&& w < g.node_count()
    &&& g.packages@[w as int].name@ == name && g.packages@[w as int].version@ == version
    &&& forall|k: int|
        0 <= k < w ==> !((#[trigger] g.packages@[k]).name@ == name && g.packages@[k].version@
            == version)
}

/// `rt` is the lowest-numbered root from which `w` is reachable.
pub open spec fn first_reaching_root(g: DependencyGraph, w: usize, rt: usize) -> bool {
    &&& g.is_root(rt)
    &&& reachable_from(g, rt, w)
    &&& forall|k: usize| k < rt && g.is_root(k) ==> !reachable_from(g, k, w)
}

/// The package has a graph position: some node matches it and some root
/// reaches that node.
pub open spec fn has_position(g: DependencyGraph, name: Seq<char>, version: Seq<char>) -> bool {
    exists|w: usize, rt: usize|
        #[trigger] first_match(g, name, version, w) && #[trigger] first_reaching_root(g, w, rt)
}

/// A finding's location dependency, checked against the graph: it always
/// carries the matched package's name and version; where the package has a
/// graph position it also carries that node's index, direct flag and
/// ancestor chain for the first root that reaches it, and where it has none
/// those fields are absent.
pub open spec fn located(
    g: DependencyGraph,
    name: Seq<char>,
    version: Seq<char>,
    d: report::Dependency,
) -> bool {
    &&& d.package matches Some(p) && p.name matches Some(nm) && nm@ == name
    &&& d.version matches Some(ver) && ver@ == version
    &&& (!has_position(g, name, version) ==> d.iid is None && d.direct is None
        && d.dependency_path is None)
    &&& forall|w: usize, rt: usize|
        #[trigger] first_match(g, name, version, w) && #[trigger] first_reaching_root(g, w, rt)
            ==> d.iid == Some(w) && dep_entry_ok(g, rt, d)
}

/// One assembled finding: the normalized advisory projection, joined with
/// the matched package's graph position where one exists.
pub open spec fn finding_ok(
    g: DependencyGraph,
    v: cargo_audit::Vulnerability,
    r: report::Vulnerability,
) -> bool {
    &&& normalized_core(v, r)
    &&& located(g, v.package.name@, v.package.version@, r.location.dependency)
}

/// Turn one resolver entry into the document's dependency shape.
fn to_dependency(g: &DependencyGraph, root: usize, e: &ResolvedDependency) -> (d:
    report::Dependency)
    requires
        g.wf(),
        root < g.node_count(),
        entry_ok(*g, root, *e),
    ensures
        dep_entry_ok(*g, root, d),
        d.iid == Some(e.node),
{
    let mut path: Vec<report::IID> = Vec::new();
    let mut i: usize = 0;
    while i < e.path.len()
        invariant
            i <= e.path@.len(),
            path@.len() == i,
            forall|k: int| 0 <= k < i ==> (#[trigger] path@[k]).iid == e.path@[k],
        decreases e.path@.len() - i,
    {
        path.push(report::IID { iid: e.path[i] });
        i = i + 1;
    }
    proof {
        assert(iids_of(path@) =~= e.path@);
    }
    let node = &g.packages[e.node];
    report::Dependency {
        package: Some(report::Package { name: Some(String::from_str(node.name.as_str())) }),
        version: Some(String::from_str(node.version.as_str())),
        iid: Some(e.node),
        direct: Some(e.direct),
        dependency_path: Some(path),
    }
}

/// Build the dependency list of one root's dependency file.
pub fn report_dependencies(g: &DependencyGraph, root: usize) -> (ds: Vec<report::Dependency>)
    requires
        g.wf(),
        root < g.node_count(),
    ensures
        deps_ok(*g, root, ds@),
{
    let entries = resolve(g, root);
    let mut ds: Vec<report::Dependency> = Vec::new();
    let mut i: usize = 0;
    while i < entries.len()
        invariant
            g.wf(),
            root < g.node_count(),
            i <= entries@.len(),
            ds@.len() == i,
            forall|a: int, b: int| 0 <= a < b < entries@.len() ==> entries@[a].node
                < entries@[b].node,
            forall|k: int| 0 <= k < entries@.len() ==> entry_ok(*g, root, #[trigger] entries@[k]),
            forall|v: usize|
                v < g.node_count() && reachable_from(*g, root, v) ==> exists|k: int|
                    0 <= k < entries@.len() && (#[trigger] entries@[k]).node == v,
            forall|k: int| 0 <= k < i ==> dep_entry_ok(*g, root, #[trigger] ds@[k]),
            forall|k: int| 0 <= k < i ==> (#[trigger] ds@[k]).iid == Some(entries@[k].node),
        decreases entries@.len() - i,
    {
        let d = to_dependency(g, root, &entries[i]);
        ds.push(d);
        i = i + 1;
    }
    proof {
        assert forall|a: int, b: int| 0 <= a < b < ds@.len() implies iid_of(ds@[a]) < iid_of(
            ds@[b],
        ) by {
            assert(ds@[a].iid == Some(entries@[a].node));
            assert(ds@[b].iid == Some(entries@[b].node));
        }
        assert forall|v: usize|
            v < g.node_count() && reachable_from(*g, root, v) implies exists|k: int|
            0 <= k < ds@.len() && (#[trigger] ds@[k]).iid == Some(v) by {
            let k = choose|k: int| 0 <= k < entries@.len() && (#[trigger] entries@[k]).node == v;
            assert(ds@[k].iid == Some(v));
        }
    }
    ds
}

/// One dependency file per graph root, in root order; each lists every
/// package reachable from its root, deduplicated by node index.
pub fn dependency_files(g: &DependencyGraph) -> (files: Vec<report::DependencyFile>)
    requires
        g.wf(),
    ensures
        files@.len() == root_nodes(*g).len(),
        forall|k: int|
            0 <= k < files@.len() ==> file_ok(*g, root_nodes(*g)[k], #[trigger] files@[k]),
{
    let n = g.packages.len();
    let mut roots: Vec<usize> = Vec::new();
    let mut v: usize = 0;
    while v < n
        invariant
            n == g.node_count(),
            v <= n,
            roots@ == roots_upto(*g, v as int),
            forall|k: int| 0 <= k < roots@.len() ==> (#[trigger] roots@[k]) < v,
        decreases n - v,
    {
        if g.packages[v].source.is_none() {
            roots.push(v);
        }
        v = v + 1;
        proof {
            assert(roots@ =~= roots_upto(*g, v as int));
        }
    }
    let mut files: Vec<report::DependencyFile> = Vec::new();
    let mut i: usize = 0;
    while i < roots.len()
        invariant
            g.wf(),
            n == g.node_count(),
            roots@ == root_nodes(*g),
            forall|k: int| 0 <= k < roots@.len() ==> (#[trigger] roots@[k]) < n,
            i <= roots@.len(),
            files@.len() == i,
            forall|k: int|
                0 <= k < i ==> file_ok(*g, root_nodes(*g)[k], #[trigger] files@[k]),
        decreases roots@.len() - i,
    {
        let root = roots[i];
        let node = &g.packages[root];
        let mut label = String::from_str("Cargo.lock (");
        label.append(node.name.as_str());
        label.append(" ");
        label.append(node.version.as_str());
        label.append(")");
        let file = report::DependencyFile {
            path: label,
            package_manager: String::from_str("cargo"),
            dependencies: report_dependencies(g, root),
        };
        files.push(file);
        i = i + 1;
    }
    files
}

/// Find the lowest-numbered graph node carrying this package name and
/// version.
fn find_package(g: &DependencyGraph, name: &String, version: &String) -> (r: Option<usize>)
    requires
        g.wf(),
    ensures
        match r {
            Some(w) => first_match(*g, name@, version@, w),
            None => forall|w: usize|
                w < g.node_count() ==> !((#[trigger] g.packages@[w as int]).name@ == name@
                    && g.packages@[w as int].version@ == version@),
        },
{
    let n = g.packages.len();
    let mut w: usize = 0;
    while w < n
        invariant
            n == g.node_count(),
            w <= n,
            forall|k: int|
                0 <= k < w ==> !((#[trigger] g.packages@[k]).name@ == name@
                    && g.packages@[k].version@ == version@),
        decreases n - w,
    {
        if string_eq(&g.packages[w].name, name) && string_eq(&g.packages[w].version, version) {
            return Some(w);
        }
        w = w + 1;
    }
    None
}

/// Find the graph position of a matched package — the lowest-numbered node
/// carrying its name and version, located from the lowest-numbered root that
/// reaches that node — and return that node's dependency entry.
fn locate_package(g: &DependencyGraph, name: &String, version: &String) -> (r: Option<
    report::Dependency,
>)
    requires
        g.wf(),
    ensures
        match r {
            Some(d) => exists|w: usize, rt: usize|
                {
                    &&& #[trigger] first_match(*g, name@, version@, w)
                    &&& #[trigger] first_reaching_root(*g, w, rt)
                    &&& d.iid == Some(w)
                    &&& dep_entry_ok(*g, rt, d)
                },
            None => !has_position(*g, name@, version@),
        },
{
    let found = find_package(g, name, version);
    match found {
        Option::None => {
            proof {
                if has_position(*g, name@, version@) {
                    let (w, rt) = choose|w: usize, rt: usize|
                        #[trigger] first_match(*g, name@, version@, w)
                            && #[trigger] first_reaching_root(*g, w, rt);
                    assert(!(g.packages@[w as int].name@ == name@ && g.packages@[w as int].version@
                        == version@));
                }
            }
            None
        },
        Option::Some(w) => {
            let n = g.packages.len();
            let mut rt: usize = 0;
            while rt < n
                invariant
                    g.wf(),
                    n == g.node_count(),
                    rt <= n,
                    w < n,
                    first_match(*g, name@, version@, w),
                    forall|k: usize|
                        k < rt && g.is_root(k) ==> !reachable_from(*g, k, w),
                decreases n - rt,
            {
                if g.packages[rt].source.is_none() {
                    let entries = resolve(g, rt);
                    let mut i: usize = 0;
                    while i < entries.len()
                        invariant
                            g.wf(),
                            rt < n,
                            n == g.node_count(),
                            w < n,
                            first_match(*g, name@, version@, w),
                            g.is_root(rt),
                            forall|k: usize|
                                k < rt && g.is_root(k) ==> !reachable_from(*g, k, w),
                            i <= entries@.len(),
                            forall|k: int|
                                0 <= k < entries@.len() ==> entry_ok(
                                    *g,
                                    rt,
                                    #[trigger] entries@[k],
                                ),
                            forall|v: usize|
                                v < g.node_count() && reachable_from(*g, rt, v) ==> exists|k: int|
                                    0 <= k < entries@.len() && (#[trigger] entries@[k]).node == v,
                            forall|k: int| 0 <= k < i ==> (#[trigger] entries@[k]).node != w,
                        decreases entries@.len() - i,
                    {
                        if entries[i].node == w {
                            let d = to_dependency(g, rt, &entries[i]);
                            proof {
                                assert(first_reaching_root(*g, w, rt));
                            }
                            return Some(d);
                        }
                        i = i + 1;
                    }
                    proof {
                        if reachable_from(*g, rt, w) {
                            let k = choose|k: int|
                                0 <= k < entries@.len() && (#[trigger] entries@[k]).node == w;
                            assert(false);
                        }
                    }
                }
                rt = rt + 1;
            }
            proof {
                if has_position(*g, name@, version@) {
                    let (w2, rt2) = choose|w2: usize, rt2: usize|
                        #[trigger] first_match(*g, name@, version@, w2)
                            && #[trigger] first_reaching_root(*g, w2, rt2);
                    // first matches are unique, so the unreachable node we
                    // scanned is the one the position names
                    if w2 < w {
                        assert(!(g.packages@[w2 as int].name@ == name@
                            && g.packages@[w2 as int].version@ == version@));
                    }
                    if w < w2 {
                        assert(!(g.packages@[w as int].name@ == name@
                            && g.packages@[w as int].version@ == version@));
                    }
                    assert(w2 == w);
                    assert(!reachable_from(*g, rt2, w));
                    assert(false);
                }
            }
            None
        },
    }
}

/// Assemble the whole report document from the graph, the matched
/// advisories, and an optional ready-made scan metadata block.
///
/// A finding whose package is reachable from no declared root keeps a bare
/// name-and-version location and is simply absent from the dependency
/// files; it is still emitted.
pub fn build_report(
    g: &DependencyGraph,
    vulnerabilities: &Vec<cargo_audit::Vulnerability>,
    scan: Option<report::Scan>,
) -> (r: report::Report)
    requires
        g.wf(),
    ensures
        r.version@ == "15.0.7"@,
        r.scan == scan,
        r.vulnerabilities@.len() == vulnerabilities@.len(),
        forall|k: int|
            0 <= k < vulnerabilities@.len() ==> finding_ok(
                *g,
                vulnerabilities@[k],
                #[trigger] r.vulnerabilities@[k],
            ),
        r.dependency_files@.len() == root_nodes(*g).len(),
        forall|k: int|
            0 <= k < r.dependency_files@.len() ==> file_ok(
                *g,
                root_nodes(*g)[k],
                #[trigger] r.dependency_files@[k],
            ),
{
    let mut findings: Vec<report::Vulnerability> = Vec::new();
    let mut i: usize = 0;
    while i < vulnerabilities.len()
        invariant
            g.wf(),
            i <= vulnerabilities@.len(),
            findings@.len() == i,
            forall|k: int|
                0 <= k < i ==> finding_ok(*g, vulnerabilities@[k], #[trigger] findings@[k]),
        decreases vulnerabilities@.len() - i,
    {
        let v = &vulnerabilities[i];
        let base = report_vulnerability(v);
        let position = locate_package(g, &v.package.name, &v.package.version);
        let dependency = match position {
            Option::Some(d) => {
                proof {
                    let (w, rt) = choose|w: usize, rt: usize|
                        {
                            &&& #[trigger] first_match(*g, v.package.name@, v.package.version@, w)
                            &&& #[trigger] first_reaching_root(*g, w, rt)
                            &&& d.iid == Some(w)
                            &&& dep_entry_ok(*g, rt, d)
                        };
                    assert(has_position(*g, v.package.name@, v.package.version@));
                    assert forall|w2: usize, rt2: usize|
                        #[trigger] first_match(*g, v.package.name@, v.package.version@, w2)
                            && #[trigger] first_reaching_root(*g, w2, rt2) implies d.iid == Some(
                        w2,
                    ) && dep_entry_ok(*g, rt2, d) by {
                        // both the node and the root of a position are unique
                        if w2 < w {
                            assert(!(g.packages@[w2 as int].name@ == v.package.name@
                                && g.packages@[w2 as int].version@ == v.package.version@));
                        }
                        if w < w2 {
                            assert(!(g.packages@[w as int].name@ == v.package.name@
                                && g.packages@[w as int].version@ == v.package.version@));
                        }
                        assert(w2 == w);
                        if rt2 < rt {
                            assert(!reachable_from(*g, rt2, w2));
                        }
                        if rt < rt2 {
                            assert(!reachable_from(*g, rt, w2));
                        }
                        assert(rt2 == rt);
                    }
                }
                d
            },
            Option::None => report::Dependency {
                package: Some(
                    report::Package { name: Some(String::from_str(v.package.name.as_str())) },
                ),
                version: Some(String::from_str(v.package.version.as_str())),
                iid: None,
                direct: None,
                dependency_path: None,
            },
        };
        let finding = report::Vulnerability {
            id: base.id,
            name: base.name,
            description: base.description,
            severity: base.severity,
            solution: base.solution,
            identifiers: base.identifiers,
            cvss_vectors: base.cvss_vectors,
            links: base.links,
            flags: base.flags,
            location: report::Location { file: base.location.file, dependency },
        };
        findings.push(finding);
        i = i + 1;
    }
    report::Report {
        version: String::from_str("15.0.7"),
        vulnerabilities: findings,
        scan,
        dependency_files: dependency_files(g),
    }
}

} // verus!
