//! Reachability in a crate's function call graph.
use vstd::prelude::*;
use std::collections::{HashMap, HashSet};

verus! {

broadcast use vstd::std_specs::hash::group_hash_axioms;

/// `a` calls `b`, and `b` is allowed (every function is, without a filter).
pub open spec fn edge(g: Map<u64, Vec<u64>>, allowed: Option<Set<u64>>, a: u64, b: u64) -> bool {
    &&& g.dom().contains(a)
    &&& g[a]@.contains(b)
    &&& match allowed {
        Some(s) => s.contains(b),
        None => true,
    }
}

/// `p` is a chain of calls.
pub open spec fn is_path(g: Map<u64, Vec<u64>>, allowed: Option<Set<u64>>, p: Seq<u64>) -> bool {
    p.len() >= 1 && forall|i: int| 0 <= i < p.len() - 1 ==> #[trigger] edge(g, allowed, p[i], p[i + 1])
}

/// `t` is reachable from `s` by a chain of calls (of length zero too).
pub open spec fn reaches(g: Map<u64, Vec<u64>>, allowed: Option<Set<u64>>, s: u64, t: u64) -> bool {
    exists|p: Seq<u64>| is_path(g, allowed, p) && p[0] == s && p[p.len() - 1] == t
}

/// Every callee of a function in `v` is in `v`.
pub open spec fn closed(g: Map<u64, Vec<u64>>, allowed: Option<Set<u64>>, v: Set<u64>) -> bool {
    forall|a: u64, b: u64| v.contains(a) && #[trigger] edge(g, allowed, a, b) ==> v.contains(b)
}

/// A function reaches itself.
pub proof fn lemma_reaches_refl(g: Map<u64, Vec<u64>>, allowed: Option<Set<u64>>, s: u64)
    ensures
        reaches(g, allowed, s, s),
{
    let p = seq![s];
    assert(is_path(g, allowed, p) && p[0] == s && p[p.len() - 1] == s);
}

/// A path extends by one call.
pub proof fn lemma_reaches_step(g: Map<u64, Vec<u64>>, allowed: Option<Set<u64>>, s: u64, t: u64, u: u64)
    requires
        reaches(g, allowed, s, t),
        edge(g, allowed, t, u),
    ensures
        reaches(g, allowed, s, u),
{
    let p = choose|p: Seq<u64>| is_path(g, allowed, p) && p[0] == s && p[p.len() - 1] == t;
    let q = p.push(u);
    assert forall|i: int| 0 <= i < q.len() - 1 implies #[trigger] edge(g, allowed, q[i], q[i + 1]) by {
        if i < p.len() - 1 {
            assert(edge(g, allowed, p[i], p[i + 1]));
        }
    }
    assert(is_path(g, allowed, q) && q[0] == s && q[q.len() - 1] == u);
}

/// A set closed under calls that holds the start of a path holds its end.
pub proof fn lemma_closed_holds_path(g: Map<u64, Vec<u64>>, allowed: Option<Set<u64>>, v: Set<u64>, p: Seq<u64>)
    requires
        closed(g, allowed, v),
        is_path(g, allowed, p),
        v.contains(p[0]),
    ensures
        v.contains(p[p.len() - 1]),
    decreases p.len(),
{
    if p.len() > 1 {
        let q = p.subrange(0, p.len() - 1);
        assert forall|i: int| 0 <= i < q.len() - 1 implies #[trigger] edge(g, allowed, q[i], q[i + 1]) by {
            assert(edge(g, allowed, p[i], p[i + 1]));
        }
        lemma_closed_holds_path(g, allowed, v, q);
        let i = p.len() - 2;
        assert(edge(g, allowed, p[i], p[i + 1]));
        assert(q[q.len() - 1] == p[i]);
    }
}

/// Adds to `visited` (and, in order of visit, to `order`) every function reachable from
/// `start` through calls to allowed functions, by a depth-first walk.
#[verifier::loop_isolation(false)]
pub fn extend_reachable(
    start: u64,
    graph: &HashMap<u64, Vec<u64>>,
    allowed: Option<&HashSet<u64>>,
    visited: &mut HashSet<u64>,
    order: &mut Vec<u64>,
)
    requires
        old(visited)@ == old(order)@.to_set(),
        old(order)@.no_duplicates(),
        closed(graph@, allowed_view(allowed), old(visited)@),
    ensures
        final(visited)@ == final(order)@.to_set(),
        final(order)@.no_duplicates(),
        closed(graph@, allowed_view(allowed), final(visited)@),
        forall|t: u64| final(visited)@.contains(t) <==> (old(visited)@.contains(t) || reaches(graph@, allowed_view(allowed), start, t)),
        final(order)@.len() >= old(order)@.len(),
        final(order)@.subrange(0, old(order)@.len() as int) == old(order)@,
{
    let ghost g = graph@;
    let ghost al = allowed_view(allowed);
    let ghost v0 = visited@;
    let ghost o0 = order@;
    let mut stack: Vec<u64> = vec![start];
    proof {
        lemma_reaches_refl(g, al, start);
    }
    loop
        invariant
            visited@ == order@.to_set(),
            order@.no_duplicates(),
            order@.len() >= o0.len(),
            order@.subrange(0, o0.len() as int) == o0,
            v0.subset_of(visited@),
            forall|t: u64| visited@.contains(t) && !v0.contains(t) ==> reaches(g, al, start, t),
            forall|i: int| 0 <= i < stack@.len() ==> reaches(g, al, start, #[trigger] stack@[i]),
            forall|a: u64, b: u64| visited@.contains(a) && #[trigger] edge(g, al, a, b) ==> visited@.contains(b) || stack@.contains(b),
            visited@.contains(start) || stack@.contains(start),
        decreases g.dom().difference(visited@).len(), stack@.len(),
    {
        let ghost vis_before = visited@;
        let ghost stack_before = stack@;
        match stack.pop() {
            None => {
                break;
            },
            Some(current) => {
                proof {
                    assert(stack_before[stack_before.len() - 1] == current);
                    assert(stack_before =~= stack@.push(current));
                }
                if visited.contains(&current) {
                    proof {
                        assert forall|a: u64, b: u64| visited@.contains(a) && #[trigger] edge(g, al, a, b) implies visited@.contains(b) || stack@.contains(b) by {
                            if stack_before.contains(b) && !stack@.contains(b) {
                                assert(b == current);
                            }
                        }
                    }
                    continue;
                }
                proof {
                    assert(reaches(g, al, start, stack_before[stack_before.len() - 1]));
                    broadcast use vstd::seq_lib::group_seq_properties;
                }
                visited.insert(current);
                order.push(current);
                proof {
                    assert(order@.subrange(0, o0.len() as int) =~= o0);
                    assert(visited@ =~= order@.to_set());
                    if g.dom().contains(current) {
                        assert(g.dom().difference(visited@) =~= g.dom().difference(vis_before).remove(current));
                    } else {
                        assert(g.dom().difference(visited@) =~= g.dom().difference(vis_before));
                    }
                }
                if let Some(callees) = graph.get(&current) {
                    let ghost stack_mid = stack@;
                    let mut j: usize = 0;
                    while j < callees.len()
                        invariant
                            j <= callees@.len(),
                            g.dom().contains(current),
                            callees@ == g[current]@,
                            stack@.subrange(0, stack_mid.len() as int) == stack_mid,
                            forall|i: int| 0 <= i < stack@.len() ==> reaches(g, al, start, #[trigger] stack@[i]),
                            forall|k: int| 0 <= k < j ==> {
                                let b = #[trigger] callees@[k];
                                (match al { Some(s) => s.contains(b), None => true }) ==> visited@.contains(b) || stack@.contains(b)
                            },
                            stack@.len() >= stack_mid.len(),
                        decreases callees@.len() - j,
                    {
                        let callee = callees[j];
                        let ok = match allowed {
                            Some(s) => s.contains(&callee),
                            None => true,
                        };
                        if ok && !visited.contains(&callee) {
                            proof {
                                assert(edge(g, al, current, callee));
                                lemma_reaches_step(g, al, start, current, callee);
                            }
                            let ghost sb = stack@;
                            stack.push(callee);
                            proof {
                                assert(stack@.subrange(0, stack_mid.len() as int) =~= sb.subrange(0, stack_mid.len() as int));
                                assert forall|k: int| 0 <= k < j implies {
                                    let b = #[trigger] callees@[k];
                                    (match al { Some(s) => s.contains(b), None => true }) ==> visited@.contains(b) || stack@.contains(b)
                                } by {
                                    let b = callees@[k];
                                    if sb.contains(b) {
                                        let w = choose|w: int| 0 <= w < sb.len() && sb[w] == b;
                                        assert(stack@[w] == b);
                                    }
                                }
                                assert(stack@[stack@.len() - 1] == callee);
                            }
                        }
                        j = j + 1;
                    }
                    proof {
                        assert forall|a: u64, b: u64| visited@.contains(a) && #[trigger] edge(g, al, a, b) implies visited@.contains(b) || stack@.contains(b) by {
                            if a == current {
                                let k = choose|k: int| 0 <= k < callees@.len() && callees@[k] == b;
                                assert(callees@[k] == b);
                            } else {
                                assert(vis_before.contains(a));
                                if !visited@.contains(b) {
                                    assert(stack_before.contains(b));
                                    if b != current {
                                        let w = choose|w: int| 0 <= w < stack_before.len() && stack_before[w] == b;
                                        assert(w < stack_mid.len());
                                        assert(stack_mid[w] == b);
                                        assert(stack@[w] == b);
                                    }
                                }
                            }
                        }
                    }
                } else {
                    proof {
                        assert forall|a: u64, b: u64| visited@.contains(a) && #[trigger] edge(g, al, a, b) implies visited@.contains(b) || stack@.contains(b) by {
                            if a != current && !visited@.contains(b) {
                                assert(stack_before.contains(b));
                                let w = choose|w: int| 0 <= w < stack_before.len() && stack_before[w] == b;
                                if b != current {
                                    assert(stack@[w] == b);
                                }
                            }
                        }
                    }
                }
            },
        }
    }
    proof {
        assert forall|t: u64| reaches(g, al, start, t) implies visited@.contains(t) by {
            let p = choose|p: Seq<u64>| is_path(g, al, p) && p[0] == start && p[p.len() - 1] == t;
            lemma_closed_holds_path(g, al, visited@, p);
        }
    }
}

/// The view of an optional filter.
pub open spec fn allowed_view(a: Option<&HashSet<u64>>) -> Option<Set<u64>> {
    match a {
        Some(s) => Some(s@),
        None => None,
    }
}

/// The functions reachable from `entrypoint` through the call graph, each once.
pub fn collect_reachable_functions(entrypoint: u64, function_call_graph: &HashMap<u64, Vec<u64>>) -> (r: Vec<u64>)
    ensures
        r@.no_duplicates(),
        forall|t: u64| r@.contains(t) <==> reaches(function_call_graph@, None, entrypoint, t),
{
    let mut visited: HashSet<u64> = HashSet::new();
    let mut order: Vec<u64> = Vec::new();
    proof {
        assert(visited@ =~= order@.to_set());
    }
    extend_reachable(entrypoint, function_call_graph, None, &mut visited, &mut order);
    proof {
        assert forall|t: u64| order@.contains(t) <==> reaches(function_call_graph@, None, entrypoint, t) by {
            assert(order@.to_set().contains(t) == order@.contains(t));
        }
    }
    order
}

} // verus!
