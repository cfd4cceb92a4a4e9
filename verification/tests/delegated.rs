use std::collections::{HashMap, HashSet};
use scout_audit::admin_auth::CallSite;
use scout_audit::call_graph::collect_reachable_functions;
use scout_audit::delegated_spending::{compute_auth_summaries, delegated_finding_for, AuthEvent, DelegatedCandidate, ParamInfo};
use scout_audit::hir::Span;

fn sp(lo: u32, hi: u32) -> Span {
    Span { lo, hi }
}

fn params(n: usize, base: u64) -> Vec<ParamInfo> {
    (0..n).map(|i| ParamInfo { hir_id: base + i as u64 }).collect()
}

struct World {
    graph: HashMap<u64, Vec<u64>>,
    params: HashMap<u64, Vec<ParamInfo>>,
    events: HashMap<u64, Vec<AuthEvent>>,
    calls: HashMap<u64, Vec<CallSite>>,
    spans: HashMap<u64, Span>,
}

// Entry point 1 (spender, from, amount) authorizes the spender itself and passes `from` to
// helper 2, which authorizes its only parameter.
fn world(helper_authorizes: bool) -> World {
    let mut graph = HashMap::new();
    graph.insert(1, vec![2]);
    graph.insert(2, vec![]);
    let mut ps = HashMap::new();
    ps.insert(1, params(3, 10));
    ps.insert(2, params(1, 20));
    let mut events = HashMap::new();
    events.insert(1, vec![AuthEvent { param_index: 0, span: sp(10, 20) }]);
    if helper_authorizes {
        events.insert(2, vec![AuthEvent { param_index: 0, span: sp(50, 60) }]);
    }
    let mut calls = HashMap::new();
    calls.insert(1, vec![CallSite { callee_def_id: 2, arg_to_param: vec![Some(1)], span: sp(30, 40) }]);
    let mut spans = HashMap::new();
    spans.insert(1, sp(0, 100));
    World { graph, params: ps, events, calls, spans }
}

#[test]
fn reachable_functions_follow_the_call_graph() {
    let w = world(true);
    let mut r = collect_reachable_functions(1, &w.graph);
    r.sort();
    assert_eq!(r, vec![1, 2]);
    assert_eq!(collect_reachable_functions(2, &w.graph), vec![2]);
}

#[test]
fn summaries_propagate_authorization_through_helpers() {
    let w = world(true);
    let s = compute_auth_summaries(&vec![1, 2], &w.params, &w.events, &w.calls);
    assert_eq!(s[&1], vec![true, true, false]);
    assert_eq!(s[&2], vec![true]);
    let w = world(false);
    let s = compute_auth_summaries(&vec![1, 2], &w.params, &w.events, &w.calls);
    assert_eq!(s[&1], vec![true, false, false]);
    assert_eq!(s[&2], vec![false]);
}

#[test]
fn finding_needs_both_authorizations_on_an_entrypoint() {
    let cand = DelegatedCandidate { spender_param_index: 0, from_param_index: 1 };
    let w = world(true);
    let mut entry = HashSet::new();
    entry.insert(1u64);
    let r = delegated_finding_for(&entry, &w.graph, &w.params, &w.events, &w.calls, &w.spans, 1, cand);
    assert_eq!(r, Some(sp(30, 40)));
    let none = HashSet::new();
    assert_eq!(delegated_finding_for(&none, &w.graph, &w.params, &w.events, &w.calls, &w.spans, 1, cand), None);
    let w = world(false);
    assert_eq!(delegated_finding_for(&entry, &w.graph, &w.params, &w.events, &w.calls, &w.spans, 1, cand), None);
}

#[test]
fn direct_authorization_of_from_is_the_reported_span() {
    let cand = DelegatedCandidate { spender_param_index: 0, from_param_index: 1 };
    let mut w = world(false);
    w.events.insert(1, vec![AuthEvent { param_index: 0, span: sp(10, 20) }, AuthEvent { param_index: 1, span: sp(22, 28) }]);
    let mut entry = HashSet::new();
    entry.insert(1u64);
    assert_eq!(delegated_finding_for(&entry, &w.graph, &w.params, &w.events, &w.calls, &w.spans, 1, cand), Some(sp(22, 28)));
}
