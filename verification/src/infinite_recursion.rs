//! Recursion reachable from a contract's entrypoints: the call edges inside a recursive
//! strongly connected component of the call graph restricted to the reachable functions.
use vstd::prelude::*;
use std::collections::{HashMap, HashSet};
use crate::hir::{Expr, ExprKind, Stmt, Span, visited_in, visited_in_parts, visited_in_seq, visited_in_stmts};
use crate::seqs::{extends, lemma_extends_trans, lemma_extends_contains};
use crate::admin_auth::{NodeFacts, node_facts};
use crate::text::{names_contain, push_name};
use crate::call_graph::{edge, reaches, closed, extend_reachable, allowed_view, collect_reachable_functions};

verus! {

broadcast use vstd::std_specs::hash::group_hash_axioms;

/// The functions reachable from some entrypoint through calls to local functions.
pub open spec fn reachable_from_entrypoints(entries: Seq<u64>, functions: Set<u64>, g: Map<u64, Vec<u64>>, t: u64) -> bool {
    exists|i: int| 0 <= i < entries.len() && reaches(g, Some(functions), #[trigger] entries[i], t)
}

/// The functions reachable from the entrypoints `entries` (the functions of the crate that
/// are contract entrypoints) through calls to functions of `functions`, each once.
#[verifier::loop_isolation(false)]
pub fn collect_reachable_entrypoints(entries: &Vec<u64>, functions: &HashSet<u64>, graph: &HashMap<u64, Vec<u64>>) -> (r: Vec<u64>)
    ensures
        r@.no_duplicates(),
        forall|t: u64| r@.contains(t) <==> reachable_from_entrypoints(entries@, functions@, graph@, t),
{
    let mut visited: HashSet<u64> = HashSet::new();
    let mut order: Vec<u64> = Vec::new();
    proof {
        assert(visited@ =~= order@.to_set());
    }
    let mut k: usize = 0;
    while k < entries.len()
        invariant
            k <= entries@.len(),
            visited@ == order@.to_set(),
            order@.no_duplicates(),
            closed(graph@, Some(functions@), visited@),
            forall|t: u64| visited@.contains(t) <==> reachable_from_entrypoints(entries@.take(k as int), functions@, graph@, t),
        decreases entries@.len() - k,
    {
        proof {
            assert(allowed_view(Some(functions)) == Some(functions@));
        }
        extend_reachable(entries[k], graph, Some(functions), &mut visited, &mut order);
        proof {
            let e1 = entries@.take(k + 1);
            let e0 = entries@.take(k as int);
            assert forall|t: u64| visited@.contains(t) <==> reachable_from_entrypoints(e1, functions@, graph@, t) by {
                if reachable_from_entrypoints(e1, functions@, graph@, t) {
                    let i = choose|i: int| 0 <= i < e1.len() && reaches(graph@, Some(functions@), #[trigger] e1[i], t);
                    if i < k {
                        assert(e0[i] == e1[i]);
                    }
                }
                if reachable_from_entrypoints(e0, functions@, graph@, t) {
                    let i = choose|i: int| 0 <= i < e0.len() && reaches(graph@, Some(functions@), #[trigger] e0[i], t);
                    assert(e1[i] == e0[i]);
                }
                assert(e1[k as int] == entries@[k as int]);
            }
        }
        k = k + 1;
    }
    proof {
        assert(entries@.take(entries@.len() as int) =~= entries@);
        assert forall|t: u64| order@.contains(t) <==> reachable_from_entrypoints(entries@, functions@, graph@, t) by {
            assert(order@.to_set().contains(t) == order@.contains(t));
        }
    }
    order
}

/// The call graph restricted to the reachable functions: each reachable function with its
/// reachable callees.
pub open spec fn restricted_graph(reachable: Set<u64>, g: Map<u64, Vec<u64>>, rg: Map<u64, Vec<u64>>) -> bool {
    &&& forall|f: u64| #[trigger] rg.dom().contains(f) <==> reachable.contains(f)
    &&& forall|f: u64, c: u64| #[trigger] rg.dom().contains(f) ==> (#[trigger] rg[f]@.contains(c)
        <==> (g.dom().contains(f) && g[f]@.contains(c) && reachable.contains(c)))
}

/// The call graph restricted to the reachable functions.
#[verifier::loop_isolation(false)]
pub fn build_reachable_graph(reachable: &Vec<u64>, graph: &HashMap<u64, Vec<u64>>) -> (r: HashMap<u64, Vec<u64>>)
    ensures
        restricted_graph(reachable@.to_set(), graph@, r@),
{
    let mut members: HashSet<u64> = HashSet::new();
    let mut i: usize = 0;
    while i < reachable.len()
        invariant
            i <= reachable@.len(),
            members@ == reachable@.take(i as int).to_set(),
        decreases reachable@.len() - i,
    {
        members.insert(reachable[i]);
        proof {
            assert(reachable@.take(i + 1) =~= reachable@.take(i as int).push(reachable@[i as int]));
            crate::seqs::lemma_push_to_set(reachable@.take(i as int), reachable@[i as int]);
        }
        i = i + 1;
    }
    assert(reachable@.take(reachable@.len() as int) =~= reachable@);
    let ghost rs = reachable@.to_set();
    let mut r: HashMap<u64, Vec<u64>> = HashMap::new();
    let mut k: usize = 0;
    while k < reachable.len()
        invariant
            k <= reachable@.len(),
            members@ == rs,
            forall|f: u64| #[trigger] r@.dom().contains(f) <==> reachable@.take(k as int).contains(f),
            forall|f: u64, c: u64| #[trigger] r@.dom().contains(f) ==> (#[trigger] r@[f]@.contains(c)
                <==> (graph@.dom().contains(f) && graph@[f]@.contains(c) && rs.contains(c))),
        decreases reachable@.len() - k,
    {
        let f = reachable[k];
        let mut children: Vec<u64> = Vec::new();
        if let Some(callees) = graph.get(&f) {
            let mut j: usize = 0;
            while j < callees.len()
                invariant
                    j <= callees@.len(),
                    forall|c: u64| #[trigger] children@.contains(c) <==> (callees@.take(j as int).contains(c) && rs.contains(c)),
                decreases callees@.len() - j,
            {
                let c = callees[j];
                let ghost before = children@;
                if members.contains(&c) {
                    children.push(c);
                }
                proof {
                    let t0 = callees@.take(j as int);
                    crate::seqs::lemma_take_succ(callees@, j as int);
                    assert forall|d: u64| #[trigger] children@.contains(d) <==> (callees@.take(j + 1).contains(d) && rs.contains(d)) by {
                        crate::seqs::lemma_contains_push(t0, c, d);
                        assert(before.contains(d) == (t0.contains(d) && rs.contains(d)));
                        if members@.contains(c) {
                            assert(children@ == before.push(c));
                            crate::seqs::lemma_contains_push(before, c, d);
                        } else {
                            assert(children@ == before);
                        }
                    }
                }
                j = j + 1;
            }
            assert(callees@.take(callees@.len() as int) =~= callees@);
        }
        r.insert(f, children);
        proof {
            let t1 = reachable@.take(k + 1);
            let t0 = reachable@.take(k as int);
            assert forall|g: u64| #[trigger] r@.dom().contains(g) <==> t1.contains(g) by {
                if t1.contains(g) && g != f {
                    let w = choose|w: int| 0 <= w < t1.len() && t1[w] == g;
                    assert(t0[w] == g);
                }
                if t0.contains(g) {
                    let w = choose|w: int| 0 <= w < t0.len() && t0[w] == g;
                    assert(t1[w] == g);
                }
                assert(t1[k as int] == f);
            }
        }
        k = k + 1;
    }
    proof {
        assert(reachable@.take(reachable@.len() as int) =~= reachable@);
        assert forall|f: u64| #[trigger] r@.dom().contains(f) <==> rs.contains(f) by {
            assert(rs.contains(f) == reachable@.contains(f));
        }
    }
    r
}

/// `a` and `b` reach each other.
pub open spec fn mutual(g: Map<u64, Vec<u64>>, a: u64, b: u64) -> bool {
    reaches(g, None, a, b) && reaches(g, None, b, a)
}

/// The strongly connected component of `n` among the functions `r`.
pub open spec fn scc_of(g: Map<u64, Vec<u64>>, r: Set<u64>, n: u64) -> Set<u64> {
    Set::new(|m: u64| r.contains(m) && mutual(g, n, m))
}

/// The component of `n` is recursive: it holds another function, or `n` calls itself.
pub open spec fn recursive_component(g: Map<u64, Vec<u64>>, r: Set<u64>, n: u64) -> bool {
    (exists|m: u64| #[trigger] scc_of(g, r, n).contains(m) && m != n) || edge(g, None, n, n)
}

/// The functions `c` form a recursive strongly connected component among `r`.
pub open spec fn is_recursive_scc(g: Map<u64, Vec<u64>>, r: Set<u64>, c: Seq<u64>) -> bool {
    exists|n: u64| r.contains(n) && c.to_set() == scc_of(g, r, n) && recursive_component(g, r, n)
}

proof fn lemma_reaches_trans(g: Map<u64, Vec<u64>>, a: u64, b: u64, c: u64)
    requires
        reaches(g, None, a, b),
        reaches(g, None, b, c),
    ensures
        reaches(g, None, a, c),
{
    let p = choose|p: Seq<u64>| crate::call_graph::is_path(g, None, p) && p[0] == a && p[p.len() - 1] == b;
    let q = choose|q: Seq<u64>| crate::call_graph::is_path(g, None, q) && q[0] == b && q[q.len() - 1] == c;
    let pq = p + q.subrange(1, q.len() as int);
    assert forall|i: int| 0 <= i < pq.len() - 1 implies #[trigger] edge(g, None, pq[i], pq[i + 1]) by {
        if i < p.len() - 1 {
            assert(edge(g, None, p[i], p[i + 1]));
        } else if i == p.len() - 1 {
            assert(pq[i] == b);
            let z = 0int;
            assert(edge(g, None, q[z], q[z + 1]));
            assert(pq[i + 1] == q[1]);
        } else {
            let j = i - p.len() + 1;
            assert(pq[i] == q[j]);
            assert(pq[i + 1] == q[j + 1]);
            assert(edge(g, None, q[j], q[j + 1]));
        }
    }
    if q.len() == 1 {
        assert(pq =~= p);
    }
    assert(crate::call_graph::is_path(g, None, pq) && pq[0] == a && pq[pq.len() - 1] == c);
}

/// Whether `children` holds `n`.
fn holds(children: &Vec<u64>, n: u64) -> (r: bool)
    ensures
        r == children@.contains(n),
{
    let mut i: usize = 0;
    while i < children.len()
        invariant
            i <= children@.len(),
            forall|j: int| 0 <= j < i ==> children@[j] != n,
        decreases children@.len() - i,
    {
        if children[i] == n {
            assert(children@[i as int] == n);
            return true;
        }
        i = i + 1;
    }
    false
}

/// The recursive strongly connected components of the reachable functions, each once, each
/// function once: the component of every reachable function on a cycle of the restricted
/// graph `graph`.
#[verifier::loop_isolation(false)]
pub fn compute_recursive_sccs(reachable: &Vec<u64>, graph: &HashMap<u64, Vec<u64>>) -> (r: Vec<Vec<u64>>)
    requires
        forall|f: u64, c: u64| #[trigger] edge(graph@, None, f, c) ==> reachable@.contains(c),
    ensures
        forall|k: int| 0 <= k < r@.len() ==> (#[trigger] r@[k])@.no_duplicates(),
        forall|k: int| 0 <= k < r@.len() ==> is_recursive_scc(graph@, reachable@.to_set(), #[trigger] r@[k]@),
        forall|n: u64| reachable@.contains(n) && recursive_component(graph@, reachable@.to_set(), n)
            ==> exists|k: int| 0 <= k < r@.len() && (#[trigger] r@[k])@.contains(n),
        forall|k1: int, k2: int, m: u64| 0 <= k1 < r@.len() && 0 <= k2 < r@.len() && k1 != k2
            ==> !(#[trigger] r@[k1]@.contains(m) && #[trigger] r@[k2]@.contains(m)),
{
    let ghost g = graph@;
    let ghost rs = reachable@.to_set();
    let mut assigned: HashSet<u64> = HashSet::new();
    let mut r: Vec<Vec<u64>> = Vec::new();
    let mut i: usize = 0;
    while i < reachable.len()
        invariant
            i <= reachable@.len(),
            forall|k: int| 0 <= k < r@.len() ==> (#[trigger] r@[k])@.no_duplicates(),
            forall|k: int| 0 <= k < r@.len() ==> is_recursive_scc(g, rs, #[trigger] r@[k]@),
            forall|k: int, m: u64| 0 <= k < r@.len() && #[trigger] r@[k]@.contains(m) ==> assigned@.contains(m),
            forall|m: u64| #[trigger] assigned@.contains(m) ==> rs.contains(m)
                && exists|j: int| 0 <= j < i && #[trigger] mutual(g, reachable@[j], m),
            forall|j: int, m: u64| 0 <= j < i && rs.contains(m) && #[trigger] mutual(g, reachable@[j], m) ==> assigned@.contains(m),
            forall|j: int| 0 <= j < i && recursive_component(g, rs, #[trigger] reachable@[j])
                ==> exists|k: int| 0 <= k < r@.len() && (#[trigger] r@[k])@.contains(reachable@[j]),
            forall|k1: int, k2: int, m: u64| 0 <= k1 < r@.len() && 0 <= k2 < r@.len() && k1 != k2
                ==> !(#[trigger] r@[k1]@.contains(m) && #[trigger] r@[k2]@.contains(m)),
        decreases reachable@.len() - i,
    {
        let n = reachable[i];
        if !assigned.contains(&n) {
            proof {
                crate::call_graph::lemma_reaches_refl(g, None, n);
            }
            let forward = collect_reachable_functions(n, graph);
            let mut comp: Vec<u64> = Vec::new();
            let mut j: usize = 0;
            while j < forward.len()
                invariant
                    j <= forward@.len(),
                    comp@.no_duplicates(),
                    forall|m: u64| #[trigger] comp@.contains(m) <==> (forward@.take(j as int).contains(m) && reaches(g, None, m, n)),
                decreases forward@.len() - j,
            {
                let m = forward[j];
                let back = collect_reachable_functions(m, graph);
                let ghost before = comp@;
                if holds(&back, n) {
                    proof {
                        assert(!before.contains(m)) by {
                            if before.contains(m) {
                                let w = choose|w: int| 0 <= w < j && forward@.take(j as int)[w] == m;
                                assert(forward@[w] == m);
                                assert(forward@[j as int] == m);
                            }
                        }
                    }
                    comp.push(m);
                }
                proof {
                    let t0 = forward@.take(j as int);
                    crate::seqs::lemma_take_succ(forward@, j as int);
                    assert forall|d: u64| #[trigger] comp@.contains(d) <==> (forward@.take(j + 1).contains(d) && reaches(g, None, d, n)) by {
                        crate::seqs::lemma_contains_push(t0, m, d);
                        assert(before.contains(d) == (t0.contains(d) && reaches(g, None, d, n)));
                        if back@.contains(n) {
                            assert(comp@ == before.push(m));
                            crate::seqs::lemma_contains_push(before, m, d);
                        } else {
                            assert(comp@ == before);
                        }
                    }
                    if back@.contains(n) {
                        assert(comp@ == before.push(m));
                        assert forall|a: int, b: int| 0 <= a < b < comp@.len() implies comp@[a] != comp@[b] by {
                            if b == comp@.len() - 1 {
                                assert(before[a] == comp@[a]);
                                assert(before.contains(comp@[a]));
                            } else {
                                assert(before[a] == comp@[a] && before[b] == comp@[b]);
                            }
                        }
                    }
                }
                j = j + 1;
            }
            proof {
                assert(forward@.take(forward@.len() as int) =~= forward@);
                assert forall|m: u64| #[trigger] comp@.to_set().contains(m) <==> scc_of(g, rs, n).contains(m) by {
                    assert(comp@.to_set().contains(m) == comp@.contains(m));
                    if comp@.contains(m) {
                        assert(reaches(g, None, n, m));
                        assert(rs.contains(m)) by {
                            let p = choose|p: Seq<u64>| crate::call_graph::is_path(g, None, p) && p[0] == n && p[p.len() - 1] == m;
                            if p.len() > 1 {
                                let q = p.len() - 2;
                                assert(edge(g, None, p[q], p[q + 1]));
                                assert(reachable@.contains(m));
                            } else {
                                assert(m == n);
                            }
                        }
                    }
                }
                assert(comp@.to_set() =~= scc_of(g, rs, n));
            }
            let self_loop = match graph.get(&n) {
                Some(children) => holds(children, n),
                None => false,
            };
            let is_recursive = comp.len() > 1 || self_loop;
            proof {
                assert(comp@.contains(n)) by {
                    crate::call_graph::lemma_reaches_refl(g, None, n);
                }
                if comp@.len() > 1 {
                    let other = if comp@[0] != n { comp@[0] } else { comp@[1] };
                    assert(comp@[0] != comp@[1]);
                    assert(comp@.to_set().contains(other));
                    assert(scc_of(g, rs, n).contains(other) && other != n);
                }
                if recursive_component(g, rs, n) && !self_loop {
                    let m = choose|m: u64| #[trigger] scc_of(g, rs, n).contains(m) && m != n;
                    assert(comp@.to_set().contains(m));
                    assert(comp@.contains(m));
                    let wm = choose|w: int| 0 <= w < comp@.len() && comp@[w] == m;
                    let wn = choose|w: int| 0 <= w < comp@.len() && comp@[w] == n;
                    assert(wm != wn);
                }
            }
            proof {
                assert forall|k: int, m: u64| 0 <= k < r@.len() && #[trigger] r@[k]@.contains(m) implies !comp@.contains(m) by {
                    if comp@.contains(m) {
                        assert(assigned@.contains(m));
                        let j1 = choose|j: int| 0 <= j < i && #[trigger] mutual(g, reachable@[j], m);
                        assert(comp@.to_set().contains(m));
                        assert(scc_of(g, rs, n).contains(m));
                        lemma_reaches_trans(g, reachable@[j1], m, n);
                        lemma_reaches_trans(g, n, m, reachable@[j1]);
                        assert(mutual(g, reachable@[j1], n));
                        assert(assigned@.contains(n));
                    }
                }
            }
            let ghost r_before = r@;
            let mut q: usize = 0;
            while q < comp.len()
                invariant
                    q <= comp@.len(),
                    forall|m: u64| #[trigger] assigned@.contains(m) ==> rs.contains(m)
                        && exists|j: int| 0 <= j < i + 1 && #[trigger] mutual(g, reachable@[j], m),
                    forall|w: int| 0 <= w < q ==> assigned@.contains(#[trigger] comp@[w]),
                    forall|k: int, m: u64| 0 <= k < r@.len() && #[trigger] r@[k]@.contains(m) ==> assigned@.contains(m),
                    forall|j: int, m: u64| 0 <= j < i && rs.contains(m) && #[trigger] mutual(g, reachable@[j], m) ==> assigned@.contains(m),
                    r@ == r_before,
                decreases comp@.len() - q,
            {
                proof {
                    assert(comp@.to_set().contains(comp@[q as int]));
                    assert(reachable@[i as int] == n);
                }
                assigned.insert(comp[q]);
                q = q + 1;
            }
            proof {
                assert forall|m: u64| rs.contains(m) && mutual(g, n, m) implies assigned@.contains(m) by {
                    assert(scc_of(g, rs, n).contains(m));
                    assert(comp@.to_set().contains(m));
                    let w = choose|w: int| 0 <= w < comp@.len() && comp@[w] == m;
                    assert(assigned@.contains(comp@[w]));
                }
            }
            if is_recursive {
                let ghost before = r@;
                r.push(comp);
                proof {
                    assert(r@[r@.len() - 1]@.to_set() == scc_of(g, rs, n));
                    assert(rs.contains(n)) by {
                        assert(reachable@[i as int] == n);
                    }
                    assert(recursive_component(g, rs, n)) by {
                        if comp@.len() > 1 {
                        } else {
                            assert(self_loop);
                            assert(graph@[n]@.contains(n));
                            assert(edge(g, None, n, n));
                        }
                    }
                    assert(is_recursive_scc(g, rs, r@[r@.len() - 1]@));
                    assert forall|k: int| 0 <= k < r@.len() implies is_recursive_scc(g, rs, #[trigger] r@[k]@) by {
                        if k < before.len() {
                            assert(r@[k] == before[k]);
                        }
                    }
                }
            }
            proof {
                assert forall|j2: int| 0 <= j2 < i + 1 && recursive_component(g, rs, #[trigger] reachable@[j2])
                    implies exists|k: int| 0 <= k < r@.len() && (#[trigger] r@[k])@.contains(reachable@[j2]) by {
                    if j2 < i {
                        let k = choose|k: int| 0 <= k < r_before.len() && (#[trigger] r_before[k])@.contains(reachable@[j2]);
                        assert(r@[k] == r_before[k]);
                    }
                    if j2 == i {
                        assert(is_recursive) by {
                            if !self_loop {
                                let m = choose|m: u64| #[trigger] scc_of(g, rs, n).contains(m) && m != n;
                                assert(comp@.to_set().contains(m));
                                let wm = choose|w: int| 0 <= w < comp@.len() && comp@[w] == m;
                                let wn = choose|w: int| 0 <= w < comp@.len() && comp@[w] == n;
                                assert(wm != wn);
                            }
                        }
                        assert(r@[r@.len() - 1]@.contains(n));
                    }
                }
            }
        } else {
            proof {
                let j0 = choose|j: int| 0 <= j < i && #[trigger] mutual(g, reachable@[j], n);
                let n0 = reachable@[j0];
                assert forall|m: u64| rs.contains(m) && mutual(g, n, m) implies assigned@.contains(m) by {
                    lemma_reaches_trans(g, n0, n, m);
                    lemma_reaches_trans(g, m, n, n0);
                    assert(mutual(g, reachable@[j0], m));
                }
                if recursive_component(g, rs, n) {
                    assert(recursive_component(g, rs, n0)) by {
                        if edge(g, None, n, n) {
                            if n != n0 {
                                assert(scc_of(g, rs, n0).contains(n));
                            }
                        } else {
                            let m = choose|m: u64| #[trigger] scc_of(g, rs, n).contains(m) && m != n;
                            lemma_reaches_trans(g, n0, n, m);
                            lemma_reaches_trans(g, m, n, n0);
                            if m != n0 {
                                assert(scc_of(g, rs, n0).contains(m));
                            } else {
                                assert(scc_of(g, rs, n0).contains(n));
                            }
                        }
                    }
                    let k = choose|k: int| 0 <= k < r@.len() && (#[trigger] r@[k])@.contains(n0);
                    assert(is_recursive_scc(g, rs, r@[k]@));
                    let nk = choose|nk: u64| rs.contains(nk) && r@[k]@.to_set() == scc_of(g, rs, nk)
                        && recursive_component(g, rs, nk);
                    assert(r@[k]@.to_set().contains(n0));
                    lemma_reaches_trans(g, nk, n0, n);
                    lemma_reaches_trans(g, n, n0, nk);
                    assert(scc_of(g, rs, nk).contains(n));
                    assert(r@[k]@.to_set().contains(n));
                }
            }
        }
        i = i + 1;
    }
    proof {
        assert forall|n: u64| reachable@.contains(n) && recursive_component(g, rs, n)
            implies exists|k: int| 0 <= k < r@.len() && (#[trigger] r@[k])@.contains(n) by {
            let j = choose|j: int| 0 <= j < reachable@.len() && reachable@[j] == n;
            assert(recursive_component(g, rs, reachable@[j]));
        }
    }
    r
}

/// A call from `caller` to `callee` at `span`.
#[derive(Debug, Clone, Copy, PartialEq, Eq, Structural)]
pub struct CallEdge {
    pub caller: u64,
    pub callee: u64,
    pub span: Span,
}

/// The function a call expression calls: the definition its callee path resolves to, or the
/// method a method call resolves to.
pub open spec fn spec_resolve_call_def_id(facts: Map<u64, NodeFacts>, e: Expr) -> Option<u64> {
    match e.kind {
        ExprKind::Call { callee, .. } => match callee.kind {
            ExprKind::Path(_) => node_facts(facts, *callee).res_def_id,
            _ => None,
        },
        ExprKind::MethodCall { .. } => node_facts(facts, e).res_def_id,
        _ => None,
    }
}

/// The function that `e` calls, if it is a call.
pub fn resolve_call_def_id(facts: &HashMap<u64, NodeFacts>, e: &Expr) -> (r: Option<u64>)
    ensures
        r == spec_resolve_call_def_id(facts@, *e),
{
    match &e.kind {
        ExprKind::Call { callee, .. } => match &callee.kind {
            ExprKind::Path(_) => match facts.get(&callee.hir_id) {
                Some(f) => f.res_def_id,
                None => None,
            },
            _ => None,
        },
        ExprKind::MethodCall { .. } => match facts.get(&e.hir_id) {
            Some(f) => f.res_def_id,
            None => None,
        },
        _ => None,
    }
}

/// The call edges of `e` and its parts, in the order of the compiler's walk, appended to
/// `acc`.
pub open spec fn edges_visit(facts: Map<u64, NodeFacts>, caller: u64, e: Expr, acc: Seq<CallEdge>) -> Seq<CallEdge>
    decreases e, 1nat,
{
    let a1 = match spec_resolve_call_def_id(facts, e) {
        Some(d) => acc.push(CallEdge { caller, callee: d, span: e.span }),
        None => acc,
    };
    edges_walk(facts, caller, e, a1)
}

/// The call edges of the parts of `e`.
pub open spec fn edges_walk(facts: Map<u64, NodeFacts>, caller: u64, e: Expr, acc: Seq<CallEdge>) -> Seq<CallEdge>
    decreases e, 0nat,
{
    match e.kind {
        ExprKind::Lit(_) => acc,
        ExprKind::Path(_) => acc,
        ExprKind::Binary(_, l, r) => edges_visit(facts, caller, *r, edges_visit(facts, caller, *l, acc)),
        ExprKind::AssignOp(_, l, r) => edges_visit(facts, caller, *l, edges_visit(facts, caller, *r, acc)),
        ExprKind::Assign(l, r) => edges_visit(facts, caller, *l, edges_visit(facts, caller, *r, acc)),
        ExprKind::Unary(_, x) => edges_visit(facts, caller, *x, acc),
        ExprKind::AddrOf(_, x) => edges_visit(facts, caller, *x, acc),
        ExprKind::DropTemps(x) => edges_visit(facts, caller, *x, acc),
        ExprKind::Cast(x, _) => edges_visit(facts, caller, *x, acc),
        ExprKind::MethodCall { receiver, args, .. } => edges_seq(facts, caller, args@, edges_visit(facts, caller, *receiver, acc)),
        ExprKind::Call { callee, args } => edges_seq(facts, caller, args@, edges_visit(facts, caller, *callee, acc)),
        ExprKind::Block { stmts, tail } => {
            let a1 = edges_stmts(facts, caller, stmts@, acc);
            match tail {
                Some(t) => edges_visit(facts, caller, *t, a1),
                None => a1,
            }
        },
        ExprKind::If { cond, then, els } => {
            let a1 = edges_visit(facts, caller, *then, edges_visit(facts, caller, *cond, acc));
            match els {
                Some(x) => edges_visit(facts, caller, *x, a1),
                None => a1,
            }
        },
        ExprKind::Let { init, .. } => edges_visit(facts, caller, *init, acc),
        ExprKind::Closure(_) => acc,
        ExprKind::Other(cs) => edges_seq(facts, caller, cs@, acc),
    }
}

/// The call edges of a sequence of expressions, in order.
pub open spec fn edges_seq(facts: Map<u64, NodeFacts>, caller: u64, es: Seq<Expr>, acc: Seq<CallEdge>) -> Seq<CallEdge>
    decreases es, 0nat,
{
    if es.len() == 0 {
        acc
    } else {
        edges_visit(facts, caller, es[es.len() - 1], edges_seq(facts, caller, es.subrange(0, es.len() - 1), acc))
    }
}

/// The call edges of a block's statements, in order.
pub open spec fn edges_stmts(facts: Map<u64, NodeFacts>, caller: u64, ss: Seq<Stmt>, acc: Seq<CallEdge>) -> Seq<CallEdge>
    decreases ss, 0nat,
{
    if ss.len() == 0 {
        acc
    } else {
        let a0 = edges_stmts(facts, caller, ss.subrange(0, ss.len() - 1), acc);
        match ss[ss.len() - 1] {
            Stmt::Let { init, .. } => match init {
                Some(i) => edges_visit(facts, caller, i, a0),
                None => a0,
            },
            Stmt::Expr(x) => edges_visit(facts, caller, x, a0),
            Stmt::Item => a0,
        }
    }
}

/// The walk that collects a function's call edges.
pub struct CallEdgeVisitor {
    pub facts: HashMap<u64, NodeFacts>,
    pub caller: u64,
    pub edges: Vec<CallEdge>,
}

impl CallEdgeVisitor {
    /// Visits `e`, as [`edges_visit`] states.
    pub fn visit_expr(&mut self, e: &Expr)
        ensures
            final(self).facts == old(self).facts,
            final(self).caller == old(self).caller,
            final(self).edges@ == edges_visit(old(self).facts@, old(self).caller, *e, old(self).edges@),
        decreases *e, 1nat,
    {
        if let Some(d) = resolve_call_def_id(&self.facts, e) {
            self.edges.push(CallEdge { caller: self.caller, callee: d, span: e.span });
        }
        self.walk_expr(e);
    }

    fn walk_expr(&mut self, e: &Expr)
        ensures
            final(self).facts == old(self).facts,
            final(self).caller == old(self).caller,
            final(self).edges@ == edges_walk(old(self).facts@, old(self).caller, *e, old(self).edges@),
        decreases *e, 0nat,
    {
        match &e.kind {
            ExprKind::Lit(_) => {},
            ExprKind::Path(_) => {},
            ExprKind::Binary(_, l, r) => {
                self.visit_expr(l);
                self.visit_expr(r);
            },
            ExprKind::AssignOp(_, l, r) => {
                self.visit_expr(r);
                self.visit_expr(l);
            },
            ExprKind::Assign(l, r) => {
                self.visit_expr(r);
                self.visit_expr(l);
            },
            ExprKind::Unary(_, x) => self.visit_expr(x),
            ExprKind::AddrOf(_, x) => self.visit_expr(x),
            ExprKind::DropTemps(x) => self.visit_expr(x),
            ExprKind::Cast(x, _) => self.visit_expr(x),
            ExprKind::MethodCall { receiver, args, .. } => {
                self.visit_expr(receiver);
                self.visit_exprs(args);
            },
            ExprKind::Call { callee, args } => {
                self.visit_expr(callee);
                self.visit_exprs(args);
            },
            ExprKind::Block { stmts, tail } => {
                self.visit_stmts(stmts);
                if let Some(t) = tail {
                    self.visit_expr(t);
                }
            },
            ExprKind::If { cond, then, els } => {
                self.visit_expr(cond);
                self.visit_expr(then);
                if let Some(x) = els {
                    self.visit_expr(x);
                }
            },
            ExprKind::Let { init, .. } => self.visit_expr(init),
            ExprKind::Closure(_) => {},
            ExprKind::Other(cs) => self.visit_exprs(cs),
        }
    }

    #[verifier::loop_isolation(false)]
    fn visit_exprs(&mut self, es: &Vec<Expr>)
        ensures
            final(self).facts == old(self).facts,
            final(self).caller == old(self).caller,
            final(self).edges@ == edges_seq(old(self).facts@, old(self).caller, es@, old(self).edges@),
        decreases *es, 0nat,
    {
        let ghost a0 = self.edges@;
        let mut i: usize = 0;
        while i < es.len()
            invariant
                i <= es@.len(),
                self.facts == old(self).facts,
                self.caller == old(self).caller,
                self.edges@ == edges_seq(self.facts@, self.caller, es@.subrange(0, i as int), a0),
            decreases es@.len() - i,
        {
            proof {
                assert(decreases_to!(*es => es@));
                assert(decreases_to!(es@ => es@[i as int]));
                let p = es@.subrange(0, i + 1);
                assert(p.subrange(0, p.len() - 1) =~= es@.subrange(0, i as int));
            }
            self.visit_expr(&es[i]);
            i = i + 1;
        }
        assert(es@.subrange(0, es@.len() as int) =~= es@);
    }

    #[verifier::loop_isolation(false)]
    fn visit_stmts(&mut self, stmts: &Vec<Stmt>)
        ensures
            final(self).facts == old(self).facts,
            final(self).caller == old(self).caller,
            final(self).edges@ == edges_stmts(old(self).facts@, old(self).caller, stmts@, old(self).edges@),
        decreases *stmts, 0nat,
    {
        let ghost a0 = self.edges@;
        let mut i: usize = 0;
        while i < stmts.len()
            invariant
                i <= stmts@.len(),
                self.facts == old(self).facts,
                self.caller == old(self).caller,
                self.edges@ == edges_stmts(self.facts@, self.caller, stmts@.subrange(0, i as int), a0),
            decreases stmts@.len() - i,
        {
            proof {
                let p = stmts@.subrange(0, i + 1);
                assert(p.subrange(0, p.len() - 1) =~= stmts@.subrange(0, i as int));
                assert(p[p.len() - 1] == stmts@[i as int]);
                assert(decreases_to!(*stmts => stmts@));
                assert(decreases_to!(stmts@ => stmts@[i as int]));
            }
            match &stmts[i] {
                Stmt::Let { init, .. } => {
                    if let Some(x) = init {
                        proof {
                            assert(decreases_to!(stmts@[i as int] => stmts@[i as int]->Let_init));
                        }
                        self.visit_expr(x);
                    }
                },
                Stmt::Expr(x) => {
                    self.visit_expr(x);
                },
                Stmt::Item => {},
            }
            i = i + 1;
        }
        assert(stmts@.subrange(0, stmts@.len() as int) =~= stmts@);
    }
}

/// The spans of the edges inside one component, in order.
pub open spec fn component_edges(comp: Seq<u64>, edges: Seq<CallEdge>) -> Seq<Span> {
    edges.filter_map(|e: CallEdge| if comp.contains(e.caller) && comp.contains(e.callee) { Some(e.span) } else { None })
}

/// The spans of the edges inside each component, component by component.
pub open spec fn components_edges(comps: Seq<Seq<u64>>, edges: Seq<CallEdge>) -> Seq<Span>
    decreases comps.len(),
{
    if comps.len() == 0 {
        Seq::empty()
    } else {
        components_edges(comps.subrange(0, comps.len() - 1), edges) + component_edges(comps[comps.len() - 1], edges)
    }
}

/// The component sequence views.
pub open spec fn comp_views(comps: Seq<Vec<u64>>) -> Seq<Seq<u64>> {
    comps.map_values(|c: Vec<u64>| c@)
}

fn member(comp: &Vec<u64>, x: u64) -> (r: bool)
    ensures
        r == comp@.contains(x),
{
    let mut i: usize = 0;
    while i < comp.len()
        invariant
            i <= comp@.len(),
            forall|j: int| 0 <= j < i ==> comp@[j] != x,
        decreases comp@.len() - i,
    {
        if comp[i] == x {
            assert(comp@[i as int] == x);
            return true;
        }
        i = i + 1;
    }
    false
}

/// The spans of the call edges inside the components, component by component.
#[verifier::loop_isolation(false)]
pub fn recursive_edge_spans(sccs: &Vec<Vec<u64>>, edges: &Vec<CallEdge>) -> (r: Vec<Span>)
    ensures
        r@ == components_edges(comp_views(sccs@), edges@),
{
    let mut r: Vec<Span> = Vec::new();
    let mut k: usize = 0;
    while k < sccs.len()
        invariant
            k <= sccs@.len(),
            r@ == components_edges(comp_views(sccs@).take(k as int), edges@),
        decreases sccs@.len() - k,
    {
        let comp = &sccs[k];
        let ghost f = |e: CallEdge| if comp@.contains(e.caller) && comp@.contains(e.callee) { Some(e.span) } else { None };
        let ghost r0 = r@;
        let mut j: usize = 0;
        while j < edges.len()
            invariant
                j <= edges@.len(),
                r@ == r0 + edges@.take(j as int).filter_map(f),
            decreases edges@.len() - j,
        {
            proof {
                edges@.lemma_filter_map_take_succ(f, j as int);
            }
            let e = edges[j];
            if member(comp, e.caller) && member(comp, e.callee) {
                r.push(e.span);
                assert(r@ =~= r0 + edges@.take(j + 1).filter_map(f));
            } else {
                assert(r@ =~= r0 + edges@.take(j + 1).filter_map(f));
            }
            j = j + 1;
        }
        proof {
            assert(edges@.take(edges@.len() as int) =~= edges@);
            let cv = comp_views(sccs@);
            assert(cv.take(k + 1).subrange(0, k as int) =~= cv.take(k as int));
            assert(cv.take(k + 1)[k as int] == comp@);
        }
        k = k + 1;
    }
    assert(comp_views(sccs@).take(sccs@.len() as int) =~= comp_views(sccs@));
    r
}

/// The components are exactly the recursive strongly connected components of `rg` among
/// `rs`, each once, disjoint.
pub open spec fn are_recursive_sccs(rg: Map<u64, Vec<u64>>, rs: Set<u64>, comps: Seq<Vec<u64>>) -> bool {
    &&& forall|k: int| 0 <= k < comps.len() ==> (#[trigger] comps[k])@.no_duplicates()
    &&& forall|k: int| 0 <= k < comps.len() ==> is_recursive_scc(rg, rs, #[trigger] comps[k]@)
    &&& forall|n: u64| rs.contains(n) && recursive_component(rg, rs, n)
        ==> exists|k: int| 0 <= k < comps.len() && (#[trigger] comps[k])@.contains(n)
    &&& forall|k1: int, k2: int, m: u64| 0 <= k1 < comps.len() && 0 <= k2 < comps.len() && k1 != k2
        ==> !(#[trigger] comps[k1]@.contains(m) && #[trigger] comps[k2]@.contains(m))
}

/// The lint's findings over a crate: with the functions reachable from the entrypoints and
/// the call graph restricted to them, the spans of the call edges inside each recursive
/// strongly connected component, component by component.
pub fn infinite_recursion_findings(
    entries: &Vec<u64>,
    functions: &HashSet<u64>,
    graph: &HashMap<u64, Vec<u64>>,
    edges: &Vec<CallEdge>,
) -> (r: Vec<Span>)
    ensures
        ({
            let rs = Set::new(|t: u64| reachable_from_entrypoints(entries@, functions@, graph@, t));
            exists|rg: Map<u64, Vec<u64>>, comps: Seq<Vec<u64>>| restricted_graph(rs, graph@, rg)
                && are_recursive_sccs(rg, rs, comps)
                && r@ == components_edges(comp_views(comps), edges@)
        }),
{
    let reachable = collect_reachable_entrypoints(entries, functions, graph);
    let ghost rs = Set::new(|t: u64| reachable_from_entrypoints(entries@, functions@, graph@, t));
    proof {
        assert(reachable@.to_set() =~= rs);
    }
    if reachable.len() == 0 {
        proof {
            let rg = Map::<u64, Vec<u64>>::empty();
            assert(rs =~= Set::<u64>::empty()) by {
                assert forall|t: u64| !rs.contains(t) by {
                    if rs.contains(t) {
                        assert(reachable@.contains(t));
                    }
                }
            }
            assert(restricted_graph(rs, graph@, rg));
            let comps = Seq::<Vec<u64>>::empty();
            assert(are_recursive_sccs(rg, rs, comps));
            assert(components_edges(comp_views(comps), edges@) =~= Seq::<Span>::empty());
        }
        return Vec::new();
    }
    let reachable_graph = build_reachable_graph(&reachable, graph);
    let recursive_sccs = compute_recursive_sccs(&reachable, &reachable_graph);
    let r = recursive_edge_spans(&recursive_sccs, edges);
    proof {
        assert(are_recursive_sccs(reachable_graph@, rs, recursive_sccs@));
    }
    r
}


/// The lint pass: the functions checked so far, by their definition paths and ids, and the
/// call edges of their bodies.
pub struct InfiniteRecursionOverStorage {
    pub checked_functions: Vec<String>,
    pub functions: HashSet<u64>,
    pub call_edges_with_spans: Vec<CallEdge>,
}

impl InfiniteRecursionOverStorage {
    /// A pass that has checked nothing.
    pub fn new() -> (r: Self)
        ensures
            r.checked_functions@ == Seq::<String>::empty(),
            r.functions@ == Set::<u64>::empty(),
            r.call_edges_with_spans@ == Seq::<CallEdge>::empty(),
    {
        InfiniteRecursionOverStorage { checked_functions: Vec::new(), functions: HashSet::new(), call_edges_with_spans: Vec::new() }
    }

    /// Checks the function `def_id`, whose definition path is `def_path`: the function is
    /// recorded; unless it comes from a macro expansion, the call edges of its body are added.
    pub fn check_fn(&mut self, def_id: u64, def_path: &str, from_expansion: bool, body: &Expr, facts: HashMap<u64, NodeFacts>)
        ensures
            forall|x: Seq<char>| names_contain(final(self).checked_functions@, x) <==> (names_contain(old(self).checked_functions@, x) || x == def_path@),
            final(self).functions@ == old(self).functions@.insert(def_id),
            final(self).call_edges_with_spans@ == if from_expansion {
                old(self).call_edges_with_spans@
            } else {
                old(self).call_edges_with_spans@ + edges_visit(facts@, def_id, *body, Seq::empty())
            },
    {
        push_name(&mut self.checked_functions, def_path);
        self.functions.insert(def_id);
        if from_expansion {
            return;
        }
        let mut visitor = CallEdgeVisitor { facts, caller: def_id, edges: Vec::new() };
        visitor.visit_expr(body);
        let ghost e0 = self.call_edges_with_spans@;
        let ghost names = self.checked_functions@;
        let ghost fns = self.functions@;
        let mut i: usize = 0;
        while i < visitor.edges.len()
            invariant
                i <= visitor.edges@.len(),
                self.checked_functions@ == names,
                self.functions@ == fns,
                self.call_edges_with_spans@ == e0 + visitor.edges@.take(i as int),
            decreases visitor.edges@.len() - i,
        {
            self.call_edges_with_spans.push(visitor.edges[i]);
            assert(self.call_edges_with_spans@ =~= e0 + visitor.edges@.take(i + 1));
            i = i + 1;
        }
        assert(visitor.edges@.take(visitor.edges@.len() as int) =~= visitor.edges@);
    }

    /// The findings at the end of the crate, given the functions that are contract entrypoints
    /// and the call graph of the crate, as [`infinite_recursion_findings`] states.
    pub fn check_crate_post(&self, entrypoints: &Vec<u64>, graph: &HashMap<u64, Vec<u64>>) -> (r: Vec<Span>)
        ensures
            ({
                let rs = Set::new(|t: u64| reachable_from_entrypoints(entrypoints@, self.functions@, graph@, t));
                exists|rg: Map<u64, Vec<u64>>, comps: Seq<Vec<u64>>| restricted_graph(rs, graph@, rg)
                    && are_recursive_sccs(rg, rs, comps)
                    && r@ == components_edges(comp_views(comps), self.call_edges_with_spans@)
            }),
    {
        infinite_recursion_findings(entrypoints, &self.functions, graph, &self.call_edges_with_spans)
    }
}

/// A walk only appends: the call edges collected before it stay, in place.
pub proof fn lemma_edges_visit_ext(facts: Map<u64, NodeFacts>, caller: u64, e: Expr, s: Seq<CallEdge>)
    ensures
        extends(s, edges_visit(facts, caller, e, s)),
    decreases e, 1nat,
{
    let s1 = match spec_resolve_call_def_id(facts, e) { Some(d0) => s.push(CallEdge { caller, callee: d0, span: e.span }), None => s };
    lemma_edges_walk_ext(facts, caller, e, s1);
    lemma_extends_trans(s, s1, edges_walk(facts, caller, e, s1));
}

/// A walk only appends: the call edges collected before it stay, in place.
pub proof fn lemma_edges_walk_ext(facts: Map<u64, NodeFacts>, caller: u64, e: Expr, s: Seq<CallEdge>)
    ensures
        extends(s, edges_walk(facts, caller, e, s)),
    decreases e, 0nat,
{
    match e.kind {
        ExprKind::Binary(_, l, r) => {
            let a = edges_visit(facts, caller, *l, s);
            lemma_edges_visit_ext(facts, caller, *l, s);
            lemma_edges_visit_ext(facts, caller, *r, a);
            lemma_extends_trans(s, a, edges_visit(facts, caller, *r, a));
        },
        ExprKind::AssignOp(_, l, r) => {
            let a = edges_visit(facts, caller, *r, s);
            lemma_edges_visit_ext(facts, caller, *r, s);
            lemma_edges_visit_ext(facts, caller, *l, a);
            lemma_extends_trans(s, a, edges_visit(facts, caller, *l, a));
        },
        ExprKind::Assign(l, r) => {
            let a = edges_visit(facts, caller, *r, s);
            lemma_edges_visit_ext(facts, caller, *r, s);
            lemma_edges_visit_ext(facts, caller, *l, a);
            lemma_extends_trans(s, a, edges_visit(facts, caller, *l, a));
        },
        ExprKind::Unary(_, y) => lemma_edges_visit_ext(facts, caller, *y, s),
        ExprKind::AddrOf(_, y) => lemma_edges_visit_ext(facts, caller, *y, s),
        ExprKind::DropTemps(y) => lemma_edges_visit_ext(facts, caller, *y, s),
        ExprKind::Cast(y, _) => lemma_edges_visit_ext(facts, caller, *y, s),
        ExprKind::MethodCall { receiver, args, .. } => {
            let a = edges_visit(facts, caller, *receiver, s);
            lemma_edges_visit_ext(facts, caller, *receiver, s);
            lemma_edges_seq_ext(facts, caller, args@, a);
            lemma_extends_trans(s, a, edges_seq(facts, caller, args@, a));
        },
        ExprKind::Call { callee, args } => {
            let a = edges_visit(facts, caller, *callee, s);
            lemma_edges_visit_ext(facts, caller, *callee, s);
            lemma_edges_seq_ext(facts, caller, args@, a);
            lemma_extends_trans(s, a, edges_seq(facts, caller, args@, a));
        },
        ExprKind::Block { stmts, tail } => {
            let a = edges_stmts(facts, caller, stmts@, s);
            lemma_edges_stmts_ext(facts, caller, stmts@, s);
            match tail {
                Some(tl) => {
                    lemma_edges_visit_ext(facts, caller, *tl, a);
                    lemma_extends_trans(s, a, edges_visit(facts, caller, *tl, a));
                },
                None => {},
            }
        },
        ExprKind::If { cond, then, els } => {
            let a = edges_visit(facts, caller, *cond, s);
            let b = edges_visit(facts, caller, *then, a);
            lemma_edges_visit_ext(facts, caller, *cond, s);
            lemma_edges_visit_ext(facts, caller, *then, a);
            lemma_extends_trans(s, a, b);
            match els {
                Some(y) => {
                    lemma_edges_visit_ext(facts, caller, *y, b);
                    lemma_extends_trans(s, b, edges_visit(facts, caller, *y, b));
                },
                None => {},
            }
        },
        ExprKind::Let { init, .. } => lemma_edges_visit_ext(facts, caller, *init, s),
        ExprKind::Other(cs) => lemma_edges_seq_ext(facts, caller, cs@, s),
        _ => {},
    }
}

/// A walk only appends: the call edges collected before it stay, in place.
pub proof fn lemma_edges_seq_ext(facts: Map<u64, NodeFacts>, caller: u64, es: Seq<Expr>, s: Seq<CallEdge>)
    ensures
        extends(s, edges_seq(facts, caller, es, s)),
    decreases es, 0nat,
{
    if es.len() > 0 {
        let p = es.subrange(0, es.len() - 1);
        let a = edges_seq(facts, caller, p, s);
        lemma_edges_seq_ext(facts, caller, p, s);
        lemma_edges_visit_ext(facts, caller, es[es.len() - 1], a);
        lemma_extends_trans(s, a, edges_visit(facts, caller, es[es.len() - 1], a));
    }
}

/// A walk only appends: the call edges collected before it stay, in place.
pub proof fn lemma_edges_stmts_ext(facts: Map<u64, NodeFacts>, caller: u64, ss: Seq<Stmt>, s: Seq<CallEdge>)
    ensures
        extends(s, edges_stmts(facts, caller, ss, s)),
    decreases ss, 0nat,
{
    if ss.len() > 0 {
        let p = ss.subrange(0, ss.len() - 1);
        let a = edges_stmts(facts, caller, p, s);
        lemma_edges_stmts_ext(facts, caller, p, s);
        match ss[ss.len() - 1] {
            Stmt::Let { init, .. } => match init {
                Some(i) => {
                    lemma_edges_visit_ext(facts, caller, i, a);
                    lemma_extends_trans(s, a, edges_visit(facts, caller, i, a));
                },
                None => {},
            },
            Stmt::Expr(y) => {
                lemma_edges_visit_ext(facts, caller, y, a);
                lemma_extends_trans(s, a, edges_visit(facts, caller, y, a));
            },
            Stmt::Item => {},
        }
    }
}

/// A call that the walk reaches gives a call edge to what it calls, at its span.
pub proof fn lemma_edges_visit_finds(facts: Map<u64, NodeFacts>, caller: u64, d: u64, x: Expr, e: Expr, s: Seq<CallEdge>)
    requires
        visited_in(x, e),
        spec_resolve_call_def_id(facts, x) == Some(d),
    ensures
        edges_visit(facts, caller, e, s).contains(CallEdge { caller, callee: d, span: x.span }),
    decreases e, 1nat,
{
    let s1 = match spec_resolve_call_def_id(facts, e) { Some(d0) => s.push(CallEdge { caller, callee: d0, span: e.span }), None => s };
    if x == e {
        assert(s1[s.len() as int] == CallEdge { caller, callee: d, span: x.span });
        lemma_edges_walk_ext(facts, caller, e, s1);
        lemma_extends_contains(s1, edges_walk(facts, caller, e, s1), CallEdge { caller, callee: d, span: x.span });
    } else {
        lemma_edges_walk_finds(facts, caller, d, x, e, s1);
    }
}

/// A call that the walk reaches gives a call edge to what it calls, at its span.
pub proof fn lemma_edges_walk_finds(facts: Map<u64, NodeFacts>, caller: u64, d: u64, x: Expr, e: Expr, s: Seq<CallEdge>)
    requires
        visited_in_parts(x, e),
        spec_resolve_call_def_id(facts, x) == Some(d),
    ensures
        edges_walk(facts, caller, e, s).contains(CallEdge { caller, callee: d, span: x.span }),
    decreases e, 0nat,
{
    match e.kind {
        ExprKind::Binary(_, l, r) => {
            let a = edges_visit(facts, caller, *l, s);
            if visited_in(x, *r) {
                lemma_edges_visit_finds(facts, caller, d, x, *r, a);
            } else {
                lemma_edges_visit_finds(facts, caller, d, x, *l, s);
                lemma_edges_visit_ext(facts, caller, *r, a);
                lemma_extends_contains(a, edges_visit(facts, caller, *r, a), CallEdge { caller, callee: d, span: x.span });
            }
        },
        ExprKind::AssignOp(_, l, r) => {
            let a = edges_visit(facts, caller, *r, s);
            if visited_in(x, *l) {
                lemma_edges_visit_finds(facts, caller, d, x, *l, a);
            } else {
                lemma_edges_visit_finds(facts, caller, d, x, *r, s);
                lemma_edges_visit_ext(facts, caller, *l, a);
                lemma_extends_contains(a, edges_visit(facts, caller, *l, a), CallEdge { caller, callee: d, span: x.span });
            }
        },
        ExprKind::Assign(l, r) => {
            let a = edges_visit(facts, caller, *r, s);
            if visited_in(x, *l) {
                lemma_edges_visit_finds(facts, caller, d, x, *l, a);
            } else {
                lemma_edges_visit_finds(facts, caller, d, x, *r, s);
                lemma_edges_visit_ext(facts, caller, *l, a);
                lemma_extends_contains(a, edges_visit(facts, caller, *l, a), CallEdge { caller, callee: d, span: x.span });
            }
        },
        ExprKind::Unary(_, y) => { lemma_edges_visit_finds(facts, caller, d, x, *y, s); },
        ExprKind::AddrOf(_, y) => { lemma_edges_visit_finds(facts, caller, d, x, *y, s); },
        ExprKind::DropTemps(y) => { lemma_edges_visit_finds(facts, caller, d, x, *y, s); },
        ExprKind::Cast(y, _) => { lemma_edges_visit_finds(facts, caller, d, x, *y, s); },
        ExprKind::MethodCall { receiver, args, .. } => {
            let a = edges_visit(facts, caller, *receiver, s);
            if visited_in_seq(x, args@) {
                lemma_edges_seq_finds(facts, caller, d, x, args@, a);
            } else {
                lemma_edges_visit_finds(facts, caller, d, x, *receiver, s);
                lemma_edges_seq_ext(facts, caller, args@, a);
                lemma_extends_contains(a, edges_seq(facts, caller, args@, a), CallEdge { caller, callee: d, span: x.span });
            }
        },
        ExprKind::Call { callee, args } => {
            let a = edges_visit(facts, caller, *callee, s);
            if visited_in_seq(x, args@) {
                lemma_edges_seq_finds(facts, caller, d, x, args@, a);
            } else {
                lemma_edges_visit_finds(facts, caller, d, x, *callee, s);
                lemma_edges_seq_ext(facts, caller, args@, a);
                lemma_extends_contains(a, edges_seq(facts, caller, args@, a), CallEdge { caller, callee: d, span: x.span });
            }
        },
        ExprKind::Block { stmts, tail } => {
            let a = edges_stmts(facts, caller, stmts@, s);
            match tail {
                Some(tl) => {
                    if visited_in(x, *tl) {
                        lemma_edges_visit_finds(facts, caller, d, x, *tl, a);
                    } else {
                        lemma_edges_stmts_finds(facts, caller, d, x, stmts@, s);
                        lemma_edges_visit_ext(facts, caller, *tl, a);
                        lemma_extends_contains(a, edges_visit(facts, caller, *tl, a), CallEdge { caller, callee: d, span: x.span });
                    }
                },
                None => {
                    lemma_edges_stmts_finds(facts, caller, d, x, stmts@, s);
                },
            }
        },
        ExprKind::If { cond, then, els } => {
            let a = edges_visit(facts, caller, *cond, s);
            let b = edges_visit(facts, caller, *then, a);
            let in_y = match els {
                Some(y) => visited_in(x, *y),
                None => false,
            };
            if !in_y {
                if visited_in(x, *then) {
                    lemma_edges_visit_finds(facts, caller, d, x, *then, a);
                } else {
                    lemma_edges_visit_finds(facts, caller, d, x, *cond, s);
                    lemma_edges_visit_ext(facts, caller, *then, a);
                    lemma_extends_contains(a, b, CallEdge { caller, callee: d, span: x.span });
                }
            }
            match els {
                Some(y) => {
                    if in_y {
                        lemma_edges_visit_finds(facts, caller, d, x, *y, b);
                    } else {
                        lemma_edges_visit_ext(facts, caller, *y, b);
                        lemma_extends_contains(b, edges_visit(facts, caller, *y, b), CallEdge { caller, callee: d, span: x.span });
                    }
                },
                None => {},
            }
        },
        ExprKind::Let { init, .. } => { lemma_edges_visit_finds(facts, caller, d, x, *init, s); },
        ExprKind::Other(cs) => {
            lemma_edges_seq_finds(facts, caller, d, x, cs@, s);
        },
        _ => {},
    }
}

/// A call that the walk reaches gives a call edge to what it calls, at its span.
pub proof fn lemma_edges_seq_finds(facts: Map<u64, NodeFacts>, caller: u64, d: u64, x: Expr, es: Seq<Expr>, s: Seq<CallEdge>)
    requires
        visited_in_seq(x, es),
        spec_resolve_call_def_id(facts, x) == Some(d),
    ensures
        edges_seq(facts, caller, es, s).contains(CallEdge { caller, callee: d, span: x.span }),
    decreases es, 0nat,
{
    let p = es.subrange(0, es.len() - 1);
    let a = edges_seq(facts, caller, p, s);
    if visited_in(x, es[es.len() - 1]) {
        lemma_edges_visit_finds(facts, caller, d, x, es[es.len() - 1], a);
    } else {
        lemma_edges_seq_finds(facts, caller, d, x, p, s);
        lemma_edges_visit_ext(facts, caller, es[es.len() - 1], a);
        lemma_extends_contains(a, edges_visit(facts, caller, es[es.len() - 1], a), CallEdge { caller, callee: d, span: x.span });
    }
}

/// A call that the walk reaches gives a call edge to what it calls, at its span.
pub proof fn lemma_edges_stmts_finds(facts: Map<u64, NodeFacts>, caller: u64, d: u64, x: Expr, ss: Seq<Stmt>, s: Seq<CallEdge>)
    requires
        visited_in_stmts(x, ss),
        spec_resolve_call_def_id(facts, x) == Some(d),
    ensures
        edges_stmts(facts, caller, ss, s).contains(CallEdge { caller, callee: d, span: x.span }),
    decreases ss, 0nat,
{
    let p = ss.subrange(0, ss.len() - 1);
    let a = edges_stmts(facts, caller, p, s);
    match ss[ss.len() - 1] {
        Stmt::Let { init, .. } => match init {
            Some(i) => {
                if visited_in(x, i) {
                    lemma_edges_visit_finds(facts, caller, d, x, i, a);
                } else {
                    lemma_edges_stmts_finds(facts, caller, d, x, p, s);
                    lemma_edges_visit_ext(facts, caller, i, a);
                    lemma_extends_contains(a, edges_visit(facts, caller, i, a), CallEdge { caller, callee: d, span: x.span });
                }
            },
            None => {
                lemma_edges_stmts_finds(facts, caller, d, x, p, s);
            },
        },
        Stmt::Expr(y) => {
            if visited_in(x, y) {
                lemma_edges_visit_finds(facts, caller, d, x, y, a);
            } else {
                lemma_edges_stmts_finds(facts, caller, d, x, p, s);
                lemma_edges_visit_ext(facts, caller, y, a);
                lemma_extends_contains(a, edges_visit(facts, caller, y, a), CallEdge { caller, callee: d, span: x.span });
            }
        },
        Stmt::Item => {
            lemma_edges_stmts_finds(facts, caller, d, x, p, s);
        },
    }
}

/// Every call in a function body gives a call edge: each call expression that the compiler's
/// walk of the body reaches, in a `let` initializer as anywhere else, and that resolves to a
/// function, yields the edge from the body's function to that function at the call's span.
pub proof fn law_every_call_is_an_edge(facts: Map<u64, NodeFacts>, caller: u64, body: Expr, x: Expr, d: u64)
    requires
        visited_in(x, body),
        spec_resolve_call_def_id(facts, x) == Some(d),
    ensures
        edges_visit(facts, caller, body, Seq::empty()).contains(CallEdge { caller, callee: d, span: x.span }),
{
    lemma_edges_visit_finds(facts, caller, d, x, body, Seq::empty());
}

/// An edge inside one component is among that component's spans.
proof fn lemma_component_edge(comp: Seq<u64>, edges: Seq<CallEdge>, e: CallEdge)
    requires
        edges.contains(e),
        comp.contains(e.caller),
        comp.contains(e.callee),
    ensures
        component_edges(comp, edges).contains(e.span),
    decreases edges.len(),
{
    let f = |c: CallEdge| if comp.contains(c.caller) && comp.contains(c.callee) { Some(c.span) } else { None };
    let last = edges.last();
    let rest = edges.drop_last();
    assert(edges.filter_map(f) == if f(last) is Some { rest.filter_map(f) + seq![f(last)->0] } else { rest.filter_map(f) });
    if last == e {
        assert(edges.filter_map(f)[edges.filter_map(f).len() - 1] == e.span);
    } else {
        let i = choose|i: int| 0 <= i < edges.len() && edges[i] == e;
        assert(i < edges.len() - 1);
        assert(rest[i] == e);
        lemma_component_edge(comp, rest, e);
        let j = choose|j: int| 0 <= j < rest.filter_map(f).len() && rest.filter_map(f)[j] == e.span;
        assert(edges.filter_map(f)[j] == e.span);
    }
}

/// The spans of one component are among those of all the components.
proof fn lemma_components_edges(comps: Seq<Seq<u64>>, edges: Seq<CallEdge>, k: int, sp: Span)
    requires
        0 <= k < comps.len(),
        component_edges(comps[k], edges).contains(sp),
    ensures
        components_edges(comps, edges).contains(sp),
    decreases comps.len(),
{
    let p = comps.subrange(0, comps.len() - 1);
    let a = components_edges(p, edges);
    let b = component_edges(comps[comps.len() - 1], edges);
    if k == comps.len() - 1 {
        let j = choose|j: int| 0 <= j < b.len() && b[j] == sp;
        assert((a + b)[a.len() + j] == sp);
    } else {
        assert(p[k] == comps[k]);
        lemma_components_edges(p, edges, k, sp);
        let j = choose|j: int| 0 <= j < a.len() && a[j] == sp;
        assert((a + b)[j] == sp);
    }
}

/// A call edge inside a recursive component is reported: when the caller's component among the
/// reachable functions is recursive and the callee is in it (caller and callee reach each
/// other), the edge's span is among the findings of the components.
pub proof fn law_recursive_edge_reported(
    rg: Map<u64, Vec<u64>>,
    rs: Set<u64>,
    comps: Seq<Vec<u64>>,
    edges: Seq<CallEdge>,
    e: CallEdge,
)
    requires
        are_recursive_sccs(rg, rs, comps),
        edges.contains(e),
        rs.contains(e.caller),
        rs.contains(e.callee),
        recursive_component(rg, rs, e.caller),
        mutual(rg, e.caller, e.callee),
    ensures
        components_edges(comp_views(comps), edges).contains(e.span),
{
    let k = choose|k: int| 0 <= k < comps.len() && (#[trigger] comps[k])@.contains(e.caller);
    assert(is_recursive_scc(rg, rs, comps[k]@));
    let n = choose|n: u64| rs.contains(n) && comps[k]@.to_set() == scc_of(rg, rs, n) && recursive_component(rg, rs, n);
    assert(comps[k]@.to_set().contains(e.caller));
    assert(scc_of(rg, rs, n).contains(e.caller));
    assert(mutual(rg, n, e.caller));
    lemma_reaches_trans(rg, n, e.caller, e.callee);
    lemma_reaches_trans(rg, e.callee, e.caller, n);
    assert(scc_of(rg, rs, n).contains(e.callee));
    assert(comps[k]@.to_set().contains(e.callee));
    assert(comp_views(comps)[k] == comps[k]@);
    lemma_component_edge(comps[k]@, edges, e);
    lemma_components_edges(comp_views(comps), edges, k, e.span);
}

} // verus!
