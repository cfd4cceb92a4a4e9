//! Delegated spending that requires authorization from the `from` account: which parameters
//! each reachable function requires authorization on, directly or through local helpers, as
//! the least solution of the propagation through call sites.
use vstd::prelude::*;
use std::collections::HashMap;
use crate::hir::Span;
use crate::admin_auth::{CallSite, CallSiteView, call_site_view, slice_for, NodeFacts, node_facts, arg_param, AdminCtx};
use crate::hir::{Expr, ExprKind, Stmt};
use crate::alias::{
    spec_stripped_id, get_expr_hir_id_stripped, aliases_ranked, spec_resolve_to_param,
    resolve_expr_to_param, lemma_alias_insert_ranked, is_resolution,
};
use crate::call_graph::{reaches, collect_reachable_functions};
use crate::text::{str_eq, occurs_at, occurs_at_exec, names_contain, push_name};
use vstd::multiset::Multiset;

verus! {

broadcast use vstd::std_specs::hash::group_hash_axioms;

/// A `require_auth` call on the parameter `param_index`.
#[derive(Debug, Clone, Copy, PartialEq, Eq, Structural)]
pub struct AuthEvent {
    pub param_index: usize,
    pub span: Span,
}

/// A parameter of a function, by its binding.
#[derive(Debug, Clone, Copy, PartialEq, Eq, Structural)]
pub struct ParamInfo {
    pub hir_id: u64,
}

/// The parameter `i` is authorized by one of the events.
pub open spec fn directly_authed(events: Seq<AuthEvent>, i: int) -> bool {
    exists|k: int| 0 <= k < events.len() && #[trigger] events[k].param_index == i
}

/// The callee's parameter `j` at call site `cs` receives the caller's parameter `i`, and
/// the summaries `s` say the callee requires authorization on it.
pub open spec fn via_at(s: Map<u64, Seq<bool>>, cs: CallSiteView, j: int, i: int) -> bool {
    &&& cs.arg_to_param[j] == Some(i as usize)
    &&& s.dom().contains(cs.callee_def_id)
    &&& 0 <= j < s[cs.callee_def_id].len()
    &&& s[cs.callee_def_id][j]
}

/// Some call site passes the parameter `i` to a callee parameter that requires
/// authorization.
pub open spec fn authed_via_call(s: Map<u64, Seq<bool>>, calls: Seq<CallSiteView>, i: int) -> bool {
    exists|c: int, j: int| 0 <= c < calls.len() && 0 <= j < calls[c].arg_to_param.len() && #[trigger] via_at(s, calls[c], j, i)
}

/// The call sites of `f`, by value.
pub open spec fn calls_of(call_sites: Map<u64, Vec<CallSite>>, f: u64) -> Seq<CallSiteView> {
    slice_for(call_sites, f).map_values(|c: CallSite| call_site_view(c))
}

/// The summaries, by value.
pub open spec fn sums(m: Map<u64, Vec<bool>>) -> Map<u64, Seq<bool>> {
    Map::new(|k: u64| m.dom().contains(k), |k: u64| m[k]@)
}

/// The summaries cover exactly the reachable functions with known parameters, one flag per
/// parameter.
pub open spec fn summary_shaped(s: Map<u64, Seq<bool>>, reach: Seq<u64>, params: Map<u64, Vec<ParamInfo>>) -> bool {
    &&& forall|f: u64| #[trigger] s.dom().contains(f) <==> (reach.contains(f) && params.dom().contains(f))
    &&& forall|f: u64| #[trigger] s.dom().contains(f) ==> s[f].len() == params[f]@.len()
}

/// The summaries hold every direct authorization and every authorization passed on through a
/// call site.
pub open spec fn summary_closed(s: Map<u64, Seq<bool>>, events: Map<u64, Vec<AuthEvent>>, call_sites: Map<u64, Vec<CallSite>>) -> bool {
    forall|f: u64, i: int| s.dom().contains(f) && 0 <= i < s[f].len()
        && (directly_authed(slice_for(events, f), i) || authed_via_call(s, calls_of(call_sites, f), i))
        ==> #[trigger] s[f][i]
}

/// Every flag set in `s` is set in `t`.
pub open spec fn summary_le(s: Map<u64, Seq<bool>>, t: Map<u64, Seq<bool>>) -> bool {
    forall|f: u64, i: int| s.dom().contains(f) && 0 <= i < s[f].len() && #[trigger] s[f][i]
        ==> t.dom().contains(f) && i < t[f].len() && t[f][i]
}

/// `s` is below every shaped, closed assignment: it is the least one.
pub open spec fn summary_least(s: Map<u64, Seq<bool>>, reach: Seq<u64>, params: Map<u64, Vec<ParamInfo>>,
    events: Map<u64, Vec<AuthEvent>>, call_sites: Map<u64, Vec<CallSite>>) -> bool
{
    forall|t: Map<u64, Seq<bool>>| summary_shaped(t, reach, params) && summary_closed(t, events, call_sites)
        ==> #[trigger] summary_le(s, t)
}

/// The number of unset flags.
pub open spec fn false_count(v: Seq<bool>) -> nat
    decreases v.len(),
{
    if v.len() == 0 {
        0
    } else {
        false_count(v.subrange(0, v.len() - 1)) + if v[v.len() - 1] { 0nat } else { 1nat }
    }
}

/// The number of unset flags over the functions of `reach`.
pub open spec fn unset(reach: Seq<u64>, s: Map<u64, Seq<bool>>) -> nat
    decreases reach.len(),
{
    if reach.len() == 0 {
        0
    } else {
        unset(reach.subrange(0, reach.len() - 1), s) + if s.dom().contains(reach[reach.len() - 1]) {
            false_count(s[reach[reach.len() - 1]])
        } else {
            0nat
        }
    }
}

/// `w` sets every flag `v` sets, and has the same length.
pub open spec fn bits_le(v: Seq<bool>, w: Seq<bool>) -> bool {
    v.len() == w.len() && forall|i: int| 0 <= i < v.len() && #[trigger] v[i] ==> w[i]
}

proof fn lemma_false_count_mono(v: Seq<bool>, w: Seq<bool>)
    requires
        bits_le(v, w),
    ensures
        false_count(w) <= false_count(v),
        v != w ==> false_count(w) < false_count(v),
    decreases v.len(),
{
    if v.len() > 0 {
        let v0 = v.subrange(0, v.len() - 1);
        let w0 = w.subrange(0, w.len() - 1);
        assert(bits_le(v0, w0)) by {
            assert forall|i: int| 0 <= i < v0.len() && #[trigger] v0[i] implies w0[i] by {
                assert(v[i]);
            }
        }
        lemma_false_count_mono(v0, w0);
        if v != w {
            if v0 == w0 {
                assert(v[v.len() - 1] != w[w.len() - 1]) by {
                    if v[v.len() - 1] == w[w.len() - 1] {
                        assert(v =~= w) by {
                            assert forall|i: int| 0 <= i < v.len() implies v[i] == w[i] by {
                                if i < v.len() - 1 {
                                    assert(v0[i] == w0[i]);
                                }
                            }
                        }
                    }
                }
            }
        }
    } else {
        assert(v =~= w);
    }
}

proof fn lemma_unset_mono(reach: Seq<u64>, s: Map<u64, Seq<bool>>, f: u64, w: Seq<bool>)
    requires
        s.dom().contains(f),
        bits_le(s[f], w),
    ensures
        unset(reach, s.insert(f, w)) <= unset(reach, s),
        reach.contains(f) && s[f] != w ==> unset(reach, s.insert(f, w)) < unset(reach, s),
    decreases reach.len(),
{
    lemma_false_count_mono(s[f], w);
    if reach.len() > 0 {
        let r0 = reach.subrange(0, reach.len() - 1);
        lemma_unset_mono(r0, s, f, w);
        if reach.contains(f) && reach[reach.len() - 1] != f {
            let k = choose|k: int| 0 <= k < reach.len() && reach[k] == f;
            assert(r0[k] == f);
        }
    }
}

/// Every flag of `s` at `f` is justified: set in `t`, given that everything else of `s` is.
pub open spec fn next_bits(cur: Seq<bool>, s: Map<u64, Seq<bool>>, events: Seq<AuthEvent>, calls: Seq<CallSiteView>, i: int) -> bool {
    cur[i] || directly_authed(events, i) || authed_via_call(s, calls, i)
}

/// The summary of one function after one more propagation step: its flags, with those of its
/// direct authorizations and those its call sites pass on, in `s`, set. Also whether a flag
/// changed.
#[verifier::loop_isolation(false)]
fn next_summary(
    cur: &Vec<bool>,
    summaries: &HashMap<u64, Vec<bool>>,
    events: &[AuthEvent],
    calls: &[CallSite],
) -> (r: (Vec<bool>, bool))
    ensures
        r.0@.len() == cur@.len(),
        forall|i: int| 0 <= i < cur@.len() ==> #[trigger] r.0@[i] == next_bits(cur@, sums(summaries@), events@, calls@.map_values(|c: CallSite| call_site_view(c)), i),
        r.1 == (r.0@ != cur@),
{
    let ghost s = sums(summaries@);
    let ghost cv = calls@.map_values(|c: CallSite| call_site_view(c));
    let n = cur.len();
    let mut next: Vec<bool> = Vec::new();
    let mut i: usize = 0;
    while i < n
        invariant
            i <= n,
            n == cur@.len(),
            next@ == cur@.subrange(0, i as int),
        decreases n - i,
    {
        next.push(cur[i]);
        assert(next@ =~= cur@.subrange(0, i + 1));
        i = i + 1;
    }
    assert(next@ =~= cur@);
    let mut k: usize = 0;
    while k < events.len()
        invariant
            k <= events@.len(),
            next@.len() == n,
            forall|p: int| 0 <= p < n ==> #[trigger] next@[p] == (cur@[p]
                || exists|e: int| 0 <= e < k && #[trigger] events@[e].param_index == p),
        decreases events@.len() - k,
    {
        let pi = events[k].param_index;
        if pi < next.len() {
            next.set(pi, true);
        }
        proof {
            assert forall|p: int| 0 <= p < n implies #[trigger] next@[p] == (cur@[p]
                || exists|e: int| 0 <= e < k + 1 && #[trigger] events@[e].param_index == p) by {
                if events@[k as int].param_index == p {
                    assert(events@[k as int].param_index == p);
                }
            }
        }
        k = k + 1;
    }
    let mut c: usize = 0;
    while c < calls.len()
        invariant
            c <= calls@.len(),
            next@.len() == n,
            cv == calls@.map_values(|c: CallSite| call_site_view(c)),
            forall|p: int| 0 <= p < n ==> #[trigger] next@[p] == (cur@[p] || directly_authed(events@, p)
                || exists|c2: int, j: int| 0 <= c2 < c && 0 <= j < cv[c2].arg_to_param.len() && #[trigger] via_at(s, cv[c2], j, p)),
        decreases calls@.len() - c,
    {
        let site = &calls[c];
        assert(cv[c as int] == call_site_view(*site));
        match summaries.get(&site.callee_def_id) {
            Some(callee_summary) => {
                let mut j: usize = 0;
                while j < site.arg_to_param.len()
                    invariant
                        j <= site.arg_to_param@.len(),
                        next@.len() == n,
                        s.dom().contains(site.callee_def_id),
                        s[site.callee_def_id] == callee_summary@,
                        forall|p: int| 0 <= p < n ==> #[trigger] next@[p] == (cur@[p] || directly_authed(events@, p)
                            || (exists|c2: int, j2: int| 0 <= c2 < c && 0 <= j2 < cv[c2].arg_to_param.len() && #[trigger] via_at(s, cv[c2], j2, p))
                            || (exists|j2: int| 0 <= j2 < j && #[trigger] via_at(s, cv[c as int], j2, p))),
                    decreases site.arg_to_param@.len() - j,
                {
                    if let Some(ci) = site.arg_to_param[j] {
                        if j < callee_summary.len() && callee_summary[j] {
                            if ci < next.len() {
                                next.set(ci, true);
                            }
                        }
                    }
                    proof {
                        assert forall|p: int| 0 <= p < n implies #[trigger] next@[p] == (cur@[p] || directly_authed(events@, p)
                            || (exists|c2: int, j2: int| 0 <= c2 < c && 0 <= j2 < cv[c2].arg_to_param.len() && #[trigger] via_at(s, cv[c2], j2, p))
                            || (exists|j2: int| 0 <= j2 < j + 1 && #[trigger] via_at(s, cv[c as int], j2, p))) by {
                            if via_at(s, cv[c as int], j as int, p) {
                                assert(via_at(s, cv[c as int], j as int, p));
                            }
                        }
                    }
                    j = j + 1;
                }
                proof {
                    assert forall|p: int| 0 <= p < n implies #[trigger] next@[p] == (cur@[p] || directly_authed(events@, p)
                        || exists|c2: int, j2: int| 0 <= c2 < c + 1 && 0 <= j2 < cv[c2].arg_to_param.len() && #[trigger] via_at(s, cv[c2], j2, p)) by {
                        if exists|c2: int, j2: int| 0 <= c2 < c + 1 && 0 <= j2 < cv[c2].arg_to_param.len() && #[trigger] via_at(s, cv[c2], j2, p) {
                            let (c2, j2) = choose|c2: int, j2: int| 0 <= c2 < c + 1 && 0 <= j2 < cv[c2].arg_to_param.len() && #[trigger] via_at(s, cv[c2], j2, p);
                            if c2 == c {
                                assert(via_at(s, cv[c as int], j2, p));
                            }
                        }
                    }
                }
            },
            None => {
                proof {
                    assert forall|p: int| 0 <= p < n implies #[trigger] next@[p] == (cur@[p] || directly_authed(events@, p)
                        || exists|c2: int, j2: int| 0 <= c2 < c + 1 && 0 <= j2 < cv[c2].arg_to_param.len() && #[trigger] via_at(s, cv[c2], j2, p)) by {
                        if exists|c2: int, j2: int| 0 <= c2 < c + 1 && 0 <= j2 < cv[c2].arg_to_param.len() && #[trigger] via_at(s, cv[c2], j2, p) {
                            let (c2, j2) = choose|c2: int, j2: int| 0 <= c2 < c + 1 && 0 <= j2 < cv[c2].arg_to_param.len() && #[trigger] via_at(s, cv[c2], j2, p);
                            assert(c2 != c);
                        }
                    }
                }
            },
        }
        c = c + 1;
    }
    let mut flipped = false;
    let mut q: usize = 0;
    while q < n
        invariant
            q <= n,
            next@.len() == n,
            flipped == exists|p: int| 0 <= p < q && #[trigger] next@[p] != cur@[p],
        decreases n - q,
    {
        if next[q] != cur[q] {
            flipped = true;
        }
        q = q + 1;
    }
    proof {
        if !flipped {
            assert(next@ =~= cur@);
        } else {
            let p = choose|p: int| 0 <= p < n && #[trigger] next@[p] != cur@[p];
            assert(next@[p] != cur@[p]);
        }
    }
    (next, flipped)
}

/// `s` is closed at `f`: the flags its direct authorizations and call sites give are set.
pub open spec fn closed_at(s: Map<u64, Seq<bool>>, events: Map<u64, Vec<AuthEvent>>, call_sites: Map<u64, Vec<CallSite>>, f: u64) -> bool {
    forall|i: int| 0 <= i < s[f].len()
        && (directly_authed(slice_for(events, f), i) || authed_via_call(s, calls_of(call_sites, f), i))
        ==> #[trigger] s[f][i]
}

/// `t` sets every flag of `s`, function by function, over the same functions.
pub open spec fn sums_grow(s: Map<u64, Seq<bool>>, t: Map<u64, Seq<bool>>) -> bool {
    &&& s.dom() == t.dom()
    &&& forall|f: u64| #[trigger] s.dom().contains(f) ==> bits_le(s[f], t[f])
}

proof fn lemma_step_least(
    s: Map<u64, Seq<bool>>, f: u64, next: Seq<bool>,
    reach: Seq<u64>, params: Map<u64, Vec<ParamInfo>>,
    events: Map<u64, Vec<AuthEvent>>, call_sites: Map<u64, Vec<CallSite>>,
)
    requires
        summary_shaped(s, reach, params),
        summary_least(s, reach, params, events, call_sites),
        s.dom().contains(f),
        next.len() == s[f].len(),
        forall|i: int| 0 <= i < s[f].len() ==> #[trigger] next[i] == next_bits(s[f], s, slice_for(events, f), calls_of(call_sites, f), i),
    ensures
        summary_least(s.insert(f, next), reach, params, events, call_sites),
{
    let s2 = s.insert(f, next);
    assert forall|t: Map<u64, Seq<bool>>| summary_shaped(t, reach, params) && summary_closed(t, events, call_sites)
        implies #[trigger] summary_le(s2, t) by {
        assert(summary_le(s, t));
        assert forall|g: u64, i: int| s2.dom().contains(g) && 0 <= i < s2[g].len() && #[trigger] s2[g][i]
            implies t.dom().contains(g) && i < t[g].len() && t[g][i] by {
            if g == f {
                assert(next[i] == next_bits(s[f], s, slice_for(events, f), calls_of(call_sites, f), i));
                assert(t.dom().contains(f));
                if s[f][i] {
                } else if directly_authed(slice_for(events, f), i) {
                } else {
                    let cv = calls_of(call_sites, f);
                    let (c, j) = choose|c: int, j: int| 0 <= c < cv.len() && 0 <= j < cv[c].arg_to_param.len() && #[trigger] via_at(s, cv[c], j, i);
                    assert(s[cv[c].callee_def_id][j]);
                    assert(via_at(t, cv[c], j, i));
                    assert(authed_via_call(t, cv, i));
                }
            }
        }
    }
}

/// The summaries of every reachable function: flag `i` of function `f` says whether `f`
/// requires authorization on its parameter `i`, directly or through the call sites of local
/// helpers. The result is the least assignment that holds every direct authorization and
/// passes each one on through every call site.
#[verifier::loop_isolation(false)]
pub fn compute_auth_summaries(
    reachable: &Vec<u64>,
    params: &HashMap<u64, Vec<ParamInfo>>,
    direct_auth_events: &HashMap<u64, Vec<AuthEvent>>,
    call_sites: &HashMap<u64, Vec<CallSite>>,
) -> (r: HashMap<u64, Vec<bool>>)
    ensures
        summary_shaped(sums(r@), reachable@, params@),
        summary_closed(sums(r@), direct_auth_events@, call_sites@),
        summary_least(sums(r@), reachable@, params@, direct_auth_events@, call_sites@),
{
    let ghost reach = reachable@;
    let ghost ps = params@;
    let ghost ev = direct_auth_events@;
    let ghost cs = call_sites@;
    let mut summaries: HashMap<u64, Vec<bool>> = HashMap::new();
    let mut k: usize = 0;
    while k < reachable.len()
        invariant
            k <= reach.len(),
            forall|f: u64| #[trigger] sums(summaries@).dom().contains(f) <==> (reach.subrange(0, k as int).contains(f) && ps.dom().contains(f)),
            forall|f: u64| #[trigger] sums(summaries@).dom().contains(f) ==> sums(summaries@)[f].len() == ps[f]@.len(),
            forall|f: u64, i: int| sums(summaries@).dom().contains(f) && 0 <= i < sums(summaries@)[f].len() ==> !#[trigger] sums(summaries@)[f][i],
        decreases reach.len() - k,
    {
        let f = reachable[k];
        let ghost sb = sums(summaries@);
        if let Some(fn_params) = params.get(&f) {
            let mut v: Vec<bool> = Vec::new();
            let mut j: usize = 0;
            while j < fn_params.len()
                invariant
                    j <= fn_params@.len(),
                    v@.len() == j,
                    forall|i: int| 0 <= i < j ==> !#[trigger] v@[i],
                decreases fn_params@.len() - j,
            {
                v.push(false);
                j = j + 1;
            }
            summaries.insert(f, v);
            assert(sums(summaries@) =~= sb.insert(f, v@));
        } else {
            assert(sums(summaries@) =~= sb);
        }
        proof {
            assert forall|g: u64| #[trigger] sums(summaries@).dom().contains(g) <==> (reach.subrange(0, k + 1).contains(g) && ps.dom().contains(g)) by {
                if reach.subrange(0, k + 1).contains(g) && g != f {
                    let w = choose|w: int| 0 <= w < k + 1 && #[trigger] reach.subrange(0, k + 1)[w] == g;
                    assert(reach.subrange(0, k as int)[w] == g);
                }
                if reach.subrange(0, k as int).contains(g) {
                    let w = choose|w: int| 0 <= w < k && #[trigger] reach.subrange(0, k as int)[w] == g;
                    assert(reach.subrange(0, k + 1)[w] == g);
                }
                assert(reach.subrange(0, k + 1)[k as int] == f);
            }
        }
        k = k + 1;
    }
    proof {
        assert(reach.subrange(0, reach.len() as int) =~= reach);
        assert forall|t: Map<u64, Seq<bool>>| summary_shaped(t, reach, ps) && summary_closed(t, ev, cs)
            implies #[trigger] summary_le(sums(summaries@), t) by {}
    }
    loop
        invariant
            summary_shaped(sums(summaries@), reach, ps),
            summary_least(sums(summaries@), reach, ps, ev, cs),
        decreases unset(reach, sums(summaries@)),
    {
        let ghost s0 = sums(summaries@);
        let mut changed = false;
        let mut k: usize = 0;
        while k < reachable.len()
            invariant
                k <= reach.len(),
                summary_shaped(sums(summaries@), reach, ps),
                summary_least(sums(summaries@), reach, ps, ev, cs),
                sums_grow(s0, sums(summaries@)),
                unset(reach, sums(summaries@)) <= unset(reach, s0),
                changed ==> unset(reach, sums(summaries@)) < unset(reach, s0),
                !changed ==> sums(summaries@) == s0,
                !changed ==> forall|w: int| 0 <= w < k && s0.dom().contains(reach[w]) ==> #[trigger] closed_at(s0, ev, cs, reach[w]),
            decreases reach.len() - k,
        {
            let f = reachable[k];
            let ghost sb = sums(summaries@);
            let cur_opt = match summaries.get(&f) {
                Some(cur) => Some(cur.clone()),
                None => None,
            };
            if let Some(cur) = cur_opt {
                proof {
                    assert(cur@ == sb[f]);
                }
                let events = crate::admin_auth::get_vec_slice(direct_auth_events, &f);
                let calls = crate::admin_auth::get_vec_slice(call_sites, &f);
                let (next, flipped) = next_summary(&cur, &summaries, events, calls);
                proof {
                    assert(calls@.map_values(|c: CallSite| call_site_view(c)) == calls_of(cs, f));
                    lemma_step_least(sb, f, next@, reach, ps, ev, cs);
                    assert(bits_le(sb[f], next@));
                    lemma_unset_mono(reach, sb, f, next@);
                    assert(reach[k as int] == f);
                }
                if flipped {
                    summaries.insert(f, next);
                    changed = true;
                    proof {
                        assert(sums(summaries@) =~= sb.insert(f, next@));
                        assert(s0.dom() =~= sums(summaries@).dom());
                        assert forall|g: u64| #[trigger] s0.dom().contains(g) implies bits_le(s0[g], sums(summaries@)[g]) by {
                            assert(bits_le(s0[g], sb[g]));
                            if g == f {
                                assert(bits_le(sb[f], next@));
                            }
                        }
                    }
                } else {
                    proof {
                        assert(next@ == cur@);
                        if !changed {
                            assert forall|w: int| 0 <= w < k + 1 && s0.dom().contains(reach[w]) implies #[trigger] closed_at(s0, ev, cs, reach[w]) by {
                                if w == k {
                                    assert forall|i: int| 0 <= i < s0[f].len()
                                        && (directly_authed(slice_for(ev, f), i) || authed_via_call(s0, calls_of(cs, f), i))
                                        implies #[trigger] s0[f][i] by {
                                        assert(next@[i] == next_bits(sb[f], sb, slice_for(ev, f), calls_of(cs, f), i));
                                    }
                                }
                            }
                        }
                    }
                }
            }
            k = k + 1;
        }
        if !changed {
            proof {
                assert forall|f: u64, i: int| s0.dom().contains(f) && 0 <= i < s0[f].len()
                    && (directly_authed(slice_for(ev, f), i) || authed_via_call(s0, calls_of(cs, f), i))
                    implies #[trigger] s0[f][i] by {
                    let w = choose|w: int| 0 <= w < reach.len() && #[trigger] reach[w] == f;
                    assert(closed_at(s0, ev, cs, reach[w]));
                }
            }
            break;
        }
    }
    summaries
}

/// The flags over a set of functions: exactly the functions of `reach` with known
/// parameters, one flag per parameter.
pub open spec fn summary_shaped_in(s: Map<u64, Seq<bool>>, reach: Set<u64>, params: Map<u64, Vec<ParamInfo>>) -> bool {
    &&& forall|f: u64| #[trigger] s.dom().contains(f) <==> (reach.contains(f) && params.dom().contains(f))
    &&& forall|f: u64| #[trigger] s.dom().contains(f) ==> s[f].len() == params[f]@.len()
}

/// The least assignment over `reach`: the authorization summaries.
pub open spec fn least_summaries(reach: Set<u64>, params: Map<u64, Vec<ParamInfo>>,
    events: Map<u64, Vec<AuthEvent>>, call_sites: Map<u64, Vec<CallSite>>) -> Map<u64, Seq<bool>>
{
    choose|s: Map<u64, Seq<bool>>| summary_shaped_in(s, reach, params) && summary_closed(s, events, call_sites)
        && forall|t: Map<u64, Seq<bool>>| summary_shaped_in(t, reach, params) && summary_closed(t, events, call_sites)
            ==> #[trigger] summary_le(s, t)
}

/// The summaries that [`compute_auth_summaries`] gives are the least assignment over the set
/// of reachable functions.
pub proof fn lemma_summaries_are_least(s: Map<u64, Seq<bool>>, reach: Seq<u64>, params: Map<u64, Vec<ParamInfo>>,
    events: Map<u64, Vec<AuthEvent>>, call_sites: Map<u64, Vec<CallSite>>)
    requires
        summary_shaped(s, reach, params),
        summary_closed(s, events, call_sites),
        summary_least(s, reach, params, events, call_sites),
    ensures
        s == least_summaries(reach.to_set(), params, events, call_sites),
{
    let rs = reach.to_set();
    assert forall|t: Map<u64, Seq<bool>>| summary_shaped_in(t, rs, params) implies summary_shaped(t, reach, params) by {
        assert forall|f: u64| #[trigger] t.dom().contains(f) <==> (reach.contains(f) && params.dom().contains(f)) by {
            assert(rs.contains(f) == reach.contains(f));
        }
    }
    assert(summary_shaped_in(s, rs, params)) by {
        assert forall|f: u64| #[trigger] s.dom().contains(f) <==> (rs.contains(f) && params.dom().contains(f)) by {
            assert(rs.contains(f) == reach.contains(f));
        }
    }
    assert(forall|t: Map<u64, Seq<bool>>| summary_shaped_in(t, rs, params) && summary_closed(t, events, call_sites)
        ==> #[trigger] summary_le(s, t));
    let c = least_summaries(rs, params, events, call_sites);
    assert(summary_le(s, c));
    assert(summary_le(c, s));
    assert(s.dom() =~= c.dom());
    assert forall|f: u64| #[trigger] s.dom().contains(f) implies s[f] == c[f] by {
        assert(s[f] =~= c[f]) by {
            assert forall|i: int| 0 <= i < s[f].len() implies s[f][i] == c[f][i] by {
                if s[f][i] {
                    assert(summary_le(s, c));
                }
                if c[f][i] {
                    assert(summary_le(c, s));
                }
            }
        }
    }
    assert(s =~= c);
}

/// Flag `param_index` of `def_id`, unset when there is none.
pub open spec fn spec_summary_requires_auth(s: Map<u64, Seq<bool>>, def_id: u64, param_index: int) -> bool {
    s.dom().contains(def_id) && 0 <= param_index < s[def_id].len() && s[def_id][param_index]
}

/// Whether the summaries say `def_id` requires authorization on its parameter `param_index`.
pub fn summary_requires_auth(summaries: &HashMap<u64, Vec<bool>>, def_id: &u64, param_index: usize) -> (r: bool)
    ensures
        r == spec_summary_requires_auth(sums(summaries@), *def_id, param_index as int),
{
    match summaries.get(def_id) {
        Some(v) => param_index < v.len() && v[param_index],
        None => false,
    }
}

/// The first event of `events` on the parameter `param_index`, if any.
pub open spec fn first_event_on(events: Seq<AuthEvent>, param_index: usize) -> Option<int> {
    if exists|k: int| 0 <= k < events.len() && #[trigger] events[k].param_index == param_index {
        Some(choose|k: int| 0 <= k < events.len() && #[trigger] events[k].param_index == param_index
            && forall|k2: int| 0 <= k2 < k ==> #[trigger] events[k2].param_index != param_index)
    } else {
        None
    }
}

/// The span of the first direct authorization of `param_index` in `def_id`.
pub open spec fn spec_direct_auth_span(events: Map<u64, Vec<AuthEvent>>, def_id: u64, param_index: usize) -> Option<Span> {
    let evs = slice_for(events, def_id);
    match first_event_on(evs, param_index) {
        Some(k) => Some(evs[k].span),
        None => None,
    }
}

/// The span of the first `require_auth` on the parameter `param_index` in `def_id`.
#[verifier::loop_isolation(false)]
pub fn direct_auth_span(direct_auth_events: &HashMap<u64, Vec<AuthEvent>>, def_id: &u64, param_index: usize) -> (r: Option<Span>)
    ensures
        r == spec_direct_auth_span(direct_auth_events@, *def_id, param_index),
{
    let evs = crate::admin_auth::get_vec_slice(direct_auth_events, def_id);
    let ghost e = slice_for(direct_auth_events@, *def_id);
    let mut k: usize = 0;
    while k < evs.len()
        invariant
            k <= evs@.len(),
            evs@ == e,
            forall|k2: int| 0 <= k2 < k ==> #[trigger] e[k2].param_index != param_index,
        decreases evs@.len() - k,
    {
        if evs[k].param_index == param_index {
            proof {
                let c = choose|k3: int| 0 <= k3 < e.len() && #[trigger] e[k3].param_index == param_index
                    && forall|k2: int| 0 <= k2 < k3 ==> #[trigger] e[k2].param_index != param_index;
                assert(e[k as int].param_index == param_index);
                if c < k {
                } else if c > k {
                    assert(e[k as int].param_index != param_index);
                }
            }
            return Some(evs[k].span);
        }
        k = k + 1;
    }
    None
}

/// The call site passes the caller's parameter to a callee parameter whose summary requires
/// authorization.
pub open spec fn site_flows_to_auth(s: Map<u64, Seq<bool>>, site: CallSiteView, caller_param_index: usize) -> bool {
    exists|j: int| 0 <= j < site.arg_to_param.len() && #[trigger] site.arg_to_param[j] == Some(caller_param_index)
        && spec_summary_requires_auth(s, site.callee_def_id, j)
}

/// The first call site of `sites` that passes the parameter on to an authorization.
pub open spec fn first_flowing_site(s: Map<u64, Seq<bool>>, sites: Seq<CallSiteView>, caller_param_index: usize) -> Option<int> {
    if exists|k: int| 0 <= k < sites.len() && #[trigger] site_flows_to_auth(s, sites[k], caller_param_index) {
        Some(choose|k: int| 0 <= k < sites.len() && #[trigger] site_flows_to_auth(s, sites[k], caller_param_index)
            && forall|k2: int| 0 <= k2 < k ==> !#[trigger] site_flows_to_auth(s, sites[k2], caller_param_index))
    } else {
        None
    }
}

/// The span of the first call site of `def_id` through which its parameter reaches an
/// authorization.
pub open spec fn spec_indirect_auth_span(s: Map<u64, Seq<bool>>, call_sites: Map<u64, Vec<CallSite>>, def_id: u64, caller_param_index: usize) -> Option<Span> {
    let sites = calls_of(call_sites, def_id);
    match first_flowing_site(s, sites, caller_param_index) {
        Some(k) => Some(sites[k].span),
        None => None,
    }
}

fn site_flows(summaries: &HashMap<u64, Vec<bool>>, site: &CallSite, caller_param_index: usize) -> (r: bool)
    ensures
        r == site_flows_to_auth(sums(summaries@), call_site_view(*site), caller_param_index),
{
    let mut j: usize = 0;
    while j < site.arg_to_param.len()
        invariant
            j <= site.arg_to_param@.len(),
            forall|j2: int| 0 <= j2 < j ==> !(#[trigger] site.arg_to_param@[j2] == Some(caller_param_index)
                && spec_summary_requires_auth(sums(summaries@), site.callee_def_id, j2)),
        decreases site.arg_to_param@.len() - j,
    {
        if site.arg_to_param[j] == Some(caller_param_index) && summary_requires_auth(summaries, &site.callee_def_id, j) {
            return true;
        }
        j = j + 1;
    }
    false
}

/// The span of the first call site through which `def_id`'s parameter `caller_param_index`
/// flows into a helper parameter that requires authorization.
#[verifier::loop_isolation(false)]
pub fn find_indirect_auth_span(
    def_id: &u64,
    caller_param_index: usize,
    summaries: &HashMap<u64, Vec<bool>>,
    call_sites: &HashMap<u64, Vec<CallSite>>,
) -> (r: Option<Span>)
    ensures
        r == spec_indirect_auth_span(sums(summaries@), call_sites@, *def_id, caller_param_index),
{
    let sites = crate::admin_auth::get_vec_slice(call_sites, def_id);
    let ghost sv = calls_of(call_sites@, *def_id);
    let ghost s = sums(summaries@);
    let mut k: usize = 0;
    while k < sites.len()
        invariant
            k <= sites@.len(),
            sv == sites@.map_values(|c: CallSite| call_site_view(c)),
            forall|k2: int| 0 <= k2 < k ==> !#[trigger] site_flows_to_auth(s, sv[k2], caller_param_index),
        decreases sites@.len() - k,
    {
        if site_flows(summaries, &sites[k], caller_param_index) {
            proof {
                assert(sv[k as int] == call_site_view(sites@[k as int]));
                let c = choose|k3: int| 0 <= k3 < sv.len() && #[trigger] site_flows_to_auth(s, sv[k3], caller_param_index)
                    && forall|k2: int| 0 <= k2 < k3 ==> !#[trigger] site_flows_to_auth(s, sv[k2], caller_param_index);
                assert(site_flows_to_auth(s, sv[k as int], caller_param_index));
                if c > k {
                    assert(!site_flows_to_auth(s, sv[k as int], caller_param_index));
                }
            }
            return Some(sites[k].span);
        }
        proof {
            assert(sv[k as int] == call_site_view(sites@[k as int]));
        }
        k = k + 1;
    }
    None
}

/// The parameter positions of a delegated operation: the spender and the account spent from.
#[derive(Debug, Clone, Copy, PartialEq, Eq, Structural)]
pub struct DelegatedCandidate {
    pub spender_param_index: usize,
    pub from_param_index: usize,
}

/// Where the last piece of `s` split at `::` starts, scanning from `i` with the current piece
/// starting at `start`.
pub open spec fn last_piece_start(s: Seq<char>, i: int, start: int) -> int
    decreases s.len() - i,
{
    if 0 <= i && i + 1 < s.len() && s[i] == ':' && s[i + 1] == ':' {
        last_piece_start(s, i + 2, i + 2)
    } else if 0 <= i && i < s.len() {
        last_piece_start(s, i + 1, start)
    } else {
        start
    }
}

/// The last segment of a path: the last piece of the name split at `::`.
pub open spec fn last_segment(s: Seq<char>) -> Seq<char> {
    s.subrange(last_piece_start(s, 0, 0), s.len() as int)
}

proof fn lemma_last_piece_start_bounds(s: Seq<char>, i: int, start: int)
    requires
        0 <= start <= i <= s.len(),
    ensures
        0 <= last_piece_start(s, i, start) <= s.len(),
    decreases s.len() - i,
{
    if i + 1 < s.len() && s[i] == ':' && s[i + 1] == ':' {
        lemma_last_piece_start_bounds(s, i + 2, i + 2);
    } else if i < s.len() {
        lemma_last_piece_start_bounds(s, i + 1, start);
    }
}

pub fn last_segment_start(s: &str) -> (r: usize)
    ensures
        r == last_piece_start(s@, 0, 0),
        r <= s@.len(),
{
    let n = s.unicode_len();
    let mut i: usize = 0;
    let mut start: usize = 0;
    while i < n
        invariant
            n == s@.len(),
            start <= i <= n,
            last_piece_start(s@, i as int, start as int) == last_piece_start(s@, 0, 0),
        decreases n - i,
    {
        if i + 1 < n && s.get_char(i) == ':' && s.get_char(i + 1) == ':' {
            i = i + 2;
            start = i;
        } else {
            i = i + 1;
        }
    }
    proof {
        lemma_last_piece_start_bounds(s@, 0, 0);
    }
    start
}

/// The last segment of the path is `name`.
pub open spec fn last_segment_is(s: Seq<char>, name: Seq<char>) -> bool {
    last_segment(s) == name
}

fn last_segment_is_exec(s: &str, name: &str) -> (r: bool)
    ensures
        r == last_segment_is(s@, name@),
{
    let start = last_segment_start(s);
    let n = s.unicode_len();
    if n - start != name.unicode_len() {
        proof {
            assert(last_segment(s@).len() != name@.len());
        }
        return false;
    }
    let r = occurs_at_exec(s, name, start);
    proof {
        assert(last_segment(s@) =~= s@.subrange(start as int, start + name@.len()));
    }
    r
}

/// Whether the parameter at `index` is known to be an address; false past the end.
pub open spec fn param_is_address_at(flags: Seq<bool>, index: int) -> bool {
    0 <= index < flags.len() && flags[index]
}

/// A function is a delegated candidate when it implements the token interface, its path ends
/// in `transfer_from` or `burn_from`, and its spender and from parameters are addresses.
pub open spec fn spec_candidate_for_fn(fn_name: Seq<char>, implements_token_interface: bool, param_is_address: Seq<bool>) -> Option<DelegatedCandidate> {
    if implements_token_interface
        && (last_segment_is(fn_name, "transfer_from"@) || last_segment_is(fn_name, "burn_from"@))
        && param_is_address_at(param_is_address, 1) && param_is_address_at(param_is_address, 2)
    {
        Some(DelegatedCandidate { spender_param_index: 1, from_param_index: 2 })
    } else {
        None
    }
}

/// The delegated candidate that a function is, if it is one. `implements_token_interface`
/// says whether its signature is that of the token interface's function of its name, and
/// `param_is_address` whether each parameter's type is an address.
pub fn candidate_for_fn(fn_name: &str, implements_token_interface: bool, param_is_address: &Vec<bool>) -> (r: Option<DelegatedCandidate>)
    ensures
        r == spec_candidate_for_fn(fn_name@, implements_token_interface, param_is_address@),
{
    if !implements_token_interface {
        return None;
    }
    if !(last_segment_is_exec(fn_name, "transfer_from") || last_segment_is_exec(fn_name, "burn_from")) {
        return None;
    }
    let spender_is_address = param_is_address.len() > 1 && param_is_address[1];
    let from_is_address = param_is_address.len() > 2 && param_is_address[2];
    if !(spender_is_address && from_is_address) {
        return None;
    }
    Some(DelegatedCandidate { spender_param_index: 1, from_param_index: 2 })
}

/// The parameters of a body, by their pattern bindings.
pub fn collect_param_info(pat_hir_ids: &Vec<u64>) -> (r: Vec<ParamInfo>)
    ensures
        r@ == pat_hir_ids@.map_values(|h: u64| ParamInfo { hir_id: h }),
{
    let mut r: Vec<ParamInfo> = Vec::new();
    let mut i: usize = 0;
    while i < pat_hir_ids.len()
        invariant
            i <= pat_hir_ids@.len(),
            r@ == pat_hir_ids@.subrange(0, i as int).map_values(|h: u64| ParamInfo { hir_id: h }),
        decreases pat_hir_ids@.len() - i,
    {
        r.push(ParamInfo { hir_id: pat_hir_ids[i] });
        assert(pat_hir_ids@.subrange(0, i + 1).map_values(|h: u64| ParamInfo { hir_id: h })
            =~= pat_hir_ids@.subrange(0, i as int).map_values(|h: u64| ParamInfo { hir_id: h }).push(ParamInfo { hir_id: pat_hir_ids@[i as int] }));
        i = i + 1;
    }
    assert(pat_hir_ids@.subrange(0, pat_hir_ids@.len() as int) =~= pat_hir_ids@);
    r
}

/// The finding for a candidate, if any: an entrypoint whose reachable flow requires
/// authorization from both the spender and `from` is reported at `from`'s first direct
/// authorization, else at the first call site that passes `from` on to one, else at the
/// function itself.
pub open spec fn spec_delegated_finding(
    entrypoints: Set<u64>,
    graph: Map<u64, Vec<u64>>,
    params: Map<u64, Vec<ParamInfo>>,
    events: Map<u64, Vec<AuthEvent>>,
    call_sites: Map<u64, Vec<CallSite>>,
    fn_spans: Map<u64, Span>,
    def_id: u64,
    candidate: DelegatedCandidate,
) -> Option<Span> {
    if !entrypoints.contains(def_id) {
        None
    } else {
        let s = least_summaries(Set::new(|t: u64| reaches(graph, None, def_id, t)), params, events, call_sites);
        if !spec_summary_requires_auth(s, def_id, candidate.spender_param_index as int)
            || !spec_summary_requires_auth(s, def_id, candidate.from_param_index as int) {
            None
        } else {
            match spec_direct_auth_span(events, def_id, candidate.from_param_index) {
                Some(sp) => Some(sp),
                None => match spec_indirect_auth_span(s, call_sites, def_id, candidate.from_param_index) {
                    Some(sp) => Some(sp),
                    None => if fn_spans.dom().contains(def_id) { Some(fn_spans[def_id]) } else { None },
                },
            }
        }
    }
}

/// The finding of the candidate `def_id`, as a multiset of at most one span.
pub open spec fn finding_of(
    entrypoints: Set<u64>,
    graph: Map<u64, Vec<u64>>,
    params: Map<u64, Vec<ParamInfo>>,
    events: Map<u64, Vec<AuthEvent>>,
    call_sites: Map<u64, Vec<CallSite>>,
    fn_spans: Map<u64, Span>,
    def_id: u64,
    candidate: DelegatedCandidate,
) -> Multiset<Span> {
    match spec_delegated_finding(entrypoints, graph, params, events, call_sites, fn_spans, def_id, candidate) {
        Some(sp) => Multiset::singleton(sp),
        None => Multiset::empty(),
    }
}

/// The findings of the candidates `cands`: each one's finding, when it has one, in no
/// particular order.
pub open spec fn findings_of(
    cands: Map<u64, DelegatedCandidate>,
    entrypoints: Set<u64>,
    graph: Map<u64, Vec<u64>>,
    params: Map<u64, Vec<ParamInfo>>,
    events: Map<u64, Vec<AuthEvent>>,
    call_sites: Map<u64, Vec<CallSite>>,
    fn_spans: Map<u64, Span>,
) -> Multiset<Span>
    decreases cands.dom().len(),
    when cands.dom().finite()
{
    if cands.dom().len() == 0 {
        Multiset::empty()
    } else {
        let f = cands.dom().choose();
        findings_of(cands.remove(f), entrypoints, graph, params, events, call_sites, fn_spans)
            .add(finding_of(entrypoints, graph, params, events, call_sites, fn_spans, f, cands[f]))
    }
}

/// The findings of a map with one more candidate are those of the map and that candidate's.
proof fn lemma_findings_of_remove(
    cands: Map<u64, DelegatedCandidate>,
    entrypoints: Set<u64>,
    graph: Map<u64, Vec<u64>>,
    params: Map<u64, Vec<ParamInfo>>,
    events: Map<u64, Vec<AuthEvent>>,
    call_sites: Map<u64, Vec<CallSite>>,
    fn_spans: Map<u64, Span>,
    k: u64,
)
    requires
        cands.dom().finite(),
        cands.contains_key(k),
    ensures
        findings_of(cands, entrypoints, graph, params, events, call_sites, fn_spans)
            == findings_of(cands.remove(k), entrypoints, graph, params, events, call_sites, fn_spans)
                .add(finding_of(entrypoints, graph, params, events, call_sites, fn_spans, k, cands[k])),
    decreases cands.dom().len(),
{
    let c = cands.dom().choose();
    assert(cands.dom().contains(c));
    if c != k {
        let dc = cands.remove(c);
        let dk = cands.remove(k);
        assert(dc.dom() =~= cands.dom().remove(c));
        assert(dk.dom() =~= cands.dom().remove(k));
        lemma_findings_of_remove(dc, entrypoints, graph, params, events, call_sites, fn_spans, k);
        lemma_findings_of_remove(dk, entrypoints, graph, params, events, call_sites, fn_spans, c);
        assert(dc.remove(k) =~= dk.remove(c));
        let base = findings_of(dc.remove(k), entrypoints, graph, params, events, call_sites, fn_spans);
        let ek = finding_of(entrypoints, graph, params, events, call_sites, fn_spans, k, cands[k]);
        let ec = finding_of(entrypoints, graph, params, events, call_sites, fn_spans, c, cands[c]);
        assert(base.add(ek).add(ec) =~= base.add(ec).add(ek));
    }
}

/// The findings of the crate: each candidate's finding, when it has one, in no particular
/// order. `entrypoints` holds the contract's entrypoint functions and `fn_spans` the spans of
/// the local functions.
#[verifier::loop_isolation(false)]
pub fn delegated_findings(
    candidates: &HashMap<u64, DelegatedCandidate>,
    entrypoints: &std::collections::HashSet<u64>,
    function_call_graph: &HashMap<u64, Vec<u64>>,
    params: &HashMap<u64, Vec<ParamInfo>>,
    direct_auth_events: &HashMap<u64, Vec<AuthEvent>>,
    call_sites: &HashMap<u64, Vec<CallSite>>,
    fn_spans: &HashMap<u64, Span>,
) -> (r: Vec<Span>)
    ensures
        r@.to_multiset() == findings_of(candidates@, entrypoints@, function_call_graph@, params@, direct_auth_events@, call_sites@, fn_spans@),
{
    broadcast use vstd::seq_lib::group_to_multiset_ensures;
    let ghost cm = candidates@;
    let ghost mut done: Set<u64> = Set::empty();
    let mut r: Vec<Span> = Vec::new();
    proof {
        assert(cm.restrict(done).dom() =~= Set::<u64>::empty());
        assert(r@.to_multiset() =~= Multiset::<Span>::empty());
    }
    for p in it: candidates.iter()
        invariant
            cm == candidates@,
            cm.dom().finite(),
            it.seq().len() == cm.dom().len(),
            forall|i: int| 0 <= i < it.seq().len() ==> cm.contains_key(*it.seq()[i].0) && cm[*it.seq()[i].0] == *it.seq()[i].1,
            forall|k: u64| #[trigger] cm.contains_key(k) ==> it.seq().contains((&k, &cm[k])),
            it.seq().no_duplicates(),
            forall|k: u64| #[trigger] done.contains(k) <==> exists|i: int| 0 <= i < it.index() && *it.seq()[i].0 == k,
            it.index() == it.seq().len() ==> forall|k: u64| #[trigger] cm.contains_key(k) ==> done.contains(k),
            done.finite(),
            r@.to_multiset() == findings_of(cm.restrict(done), entrypoints@, function_call_graph@, params@, direct_auth_events@, call_sites@, fn_spans@),
    {
        let (def_ref, cand_ref) = p;
        let def_id = *def_ref;
        let candidate = *cand_ref;
        let ghost idx = it.index();
        proof {
            assert(*it.seq()[idx].0 == def_id);
            if done.contains(def_id) {
                let i = choose|i: int| 0 <= i < idx && *it.seq()[i].0 == def_id;
                assert(it.seq()[i] == it.seq()[idx]);
            }
        }
        let found = delegated_finding_for(entrypoints, function_call_graph, params, direct_auth_events, call_sites, fn_spans, def_id, candidate);
        let ghost r0 = r@;
        if let Some(sp) = found {
            r.push(sp);
        }
        let ghost prev = done;
        proof {
            done = done.insert(def_id);
        }
        proof {
            let nd = done;
            let old_r = cm.restrict(prev);
            let new_r = cm.restrict(nd);
            assert(new_r.dom() =~= cm.dom().intersect(nd));
            assert(old_r.dom() =~= cm.dom().intersect(prev));
            assert(new_r.remove(def_id) =~= old_r);
            lemma_findings_of_remove(new_r, entrypoints@, function_call_graph@, params@, direct_auth_events@, call_sites@, fn_spans@, def_id);
            assert(new_r[def_id] == candidate);
            if found is Some {
                assert(r@ == r0.push(found->0));
            } else {
                assert(r@ == r0);
            }
            assert(r@.to_multiset() =~= findings_of(new_r, entrypoints@, function_call_graph@, params@, direct_auth_events@, call_sites@, fn_spans@));
            assert forall|k: u64| #[trigger] done.contains(k) <==> exists|i: int| 0 <= i < idx + 1 && *it.seq()[i].0 == k by {
                if k == def_id {
                    assert(*it.seq()[idx].0 == k);
                }
            }
            assert forall|k: u64| idx + 1 == it.seq().len() && #[trigger] cm.contains_key(k) implies done.contains(k) by {
                let i = choose|i: int| 0 <= i < it.seq().len() && it.seq()[i] == (&k, &cm[k]);
                assert(*it.seq()[i].0 == k);
            }
        }
    }
    proof {
        assert(cm.restrict(done) =~= cm);
    }
    r
}

/// The finding for one candidate, as [`spec_delegated_finding`] states.
pub fn delegated_finding_for(
    entrypoints: &std::collections::HashSet<u64>,
    function_call_graph: &HashMap<u64, Vec<u64>>,
    params: &HashMap<u64, Vec<ParamInfo>>,
    direct_auth_events: &HashMap<u64, Vec<AuthEvent>>,
    call_sites: &HashMap<u64, Vec<CallSite>>,
    fn_spans: &HashMap<u64, Span>,
    def_id: u64,
    candidate: DelegatedCandidate,
) -> (r: Option<Span>)
    ensures
        r == spec_delegated_finding(entrypoints@, function_call_graph@, params@, direct_auth_events@, call_sites@, fn_spans@, def_id, candidate),
{
    if !entrypoints.contains(&def_id) {
        return None;
    }
    let reachable = collect_reachable_functions(def_id, function_call_graph);
    let summaries = compute_auth_summaries(&reachable, params, direct_auth_events, call_sites);
    proof {
        lemma_summaries_are_least(sums(summaries@), reachable@, params@, direct_auth_events@, call_sites@);
        assert(reachable@.to_set() =~= Set::new(|t: u64| reaches(function_call_graph@, None, def_id, t)));
    }
    let from_direct_auth_span = direct_auth_span(direct_auth_events, &def_id, candidate.from_param_index);
    if !summary_requires_auth(&summaries, &def_id, candidate.spender_param_index) {
        return None;
    }
    if !summary_requires_auth(&summaries, &def_id, candidate.from_param_index) {
        return None;
    }
    match from_direct_auth_span {
        Some(sp) => Some(sp),
        None => match find_indirect_auth_span(&def_id, candidate.from_param_index, &summaries, call_sites) {
            Some(sp) => Some(sp),
            None => match fn_spans.get(&def_id) {
                Some(sp) => Some(*sp),
                None => None,
            },
        },
    }
}

/// What the walk reads: the index of the parameter bindings and the facts of the nodes.
pub struct DelegatedCtx {
    pub param_by_hir: Map<u64, usize>,
    pub facts: Map<u64, NodeFacts>,
}

/// What the walk has gathered: aliases of parameters, authorizations and call sites.
pub struct DelegatedScan {
    pub aliases: Map<u64, u64>,
    pub events: Seq<AuthEvent>,
    pub calls: Seq<CallSiteView>,
}

/// The caller's parameter index that `e` traces back to.
pub open spec fn deleg_arg_param(c: DelegatedCtx, aliases: Map<u64, u64>, e: Expr) -> Option<usize> {
    match spec_resolve_to_param(e, aliases, c.param_by_hir) {
        Some(h) => Some(c.param_by_hir[h]),
        None => None,
    }
}

/// What `expr` itself records: a call of a path that resolves to a definition is a call site;
/// a `require_auth` or `require_auth_for_args` on a parameter is an authorization.
pub open spec fn deleg_effect(c: DelegatedCtx, s: DelegatedScan, expr: Expr) -> DelegatedScan {
    let s1 = match expr.kind {
        ExprKind::Call { callee, args } => match callee.kind {
            ExprKind::Path(_) => match node_facts(c.facts, *callee).res_def_id {
                Some(d) => DelegatedScan {
                    calls: s.calls.push(CallSiteView {
                        callee_def_id: d,
                        arg_to_param: args@.map_values(|a: Expr| deleg_arg_param(c, s.aliases, a)),
                        span: expr.span,
                    }),
                    ..s
                },
                None => s,
            },
            _ => s,
        },
        _ => s,
    };
    match expr.kind {
        ExprKind::MethodCall { method, receiver, .. } => if method@ == "require_auth"@ || method@ == "require_auth_for_args"@ {
            match spec_resolve_to_param(*receiver, s1.aliases, c.param_by_hir) {
                Some(h) => DelegatedScan {
                    events: s1.events.push(AuthEvent { param_index: c.param_by_hir[h], span: expr.span }),
                    ..s1
                },
                None => s1,
            }
        } else {
            s1
        },
        _ => s1,
    }
}

/// What `let pat = init` records before its initializer is visited: a binding initialized by
/// a parameter, through aliases, becomes its alias.
pub open spec fn deleg_local_effect(c: DelegatedCtx, s: DelegatedScan, pat: u64, binding: Option<String>, init: Option<Expr>) -> DelegatedScan {
    match init {
        Some(i) => if binding is Some {
            match spec_resolve_to_param(i, s.aliases, c.param_by_hir) {
                Some(h) => DelegatedScan { aliases: s.aliases.insert(pat, h), ..s },
                None => s,
            }
        } else {
            s
        },
        None => s,
    }
}

/// Visiting `e`: its own effect, then its parts.
pub open spec fn deleg_visit(c: DelegatedCtx, e: Expr, s: DelegatedScan) -> DelegatedScan
    decreases e, 1nat,
{
    deleg_walk(c, e, deleg_effect(c, s, e))
}

/// Visiting the parts of `e` in the order of the compiler's walk.
pub open spec fn deleg_walk(c: DelegatedCtx, e: Expr, s: DelegatedScan) -> DelegatedScan
    decreases e, 0nat,
{
    match e.kind {
        ExprKind::Lit(_) => s,
        ExprKind::Path(_) => s,
        ExprKind::Binary(_, l, r) => deleg_visit(c, *r, deleg_visit(c, *l, s)),
        ExprKind::AssignOp(_, l, r) => deleg_visit(c, *l, deleg_visit(c, *r, s)),
        ExprKind::Assign(l, r) => deleg_visit(c, *l, deleg_visit(c, *r, s)),
        ExprKind::Unary(_, x) => deleg_visit(c, *x, s),
        ExprKind::AddrOf(_, x) => deleg_visit(c, *x, s),
        ExprKind::DropTemps(x) => deleg_visit(c, *x, s),
        ExprKind::Cast(x, _) => deleg_visit(c, *x, s),
        ExprKind::MethodCall { receiver, args, .. } => deleg_visit_seq(c, args@, deleg_visit(c, *receiver, s)),
        ExprKind::Call { callee, args } => deleg_visit_seq(c, args@, deleg_visit(c, *callee, s)),
        ExprKind::Block { stmts, tail } => {
            let s1 = deleg_visit_stmts(c, stmts@, s);
            match tail {
                Some(t) => deleg_visit(c, *t, s1),
                None => s1,
            }
        },
        ExprKind::If { cond, then, els } => {
            let s1 = deleg_visit(c, *then, deleg_visit(c, *cond, s));
            match els {
                Some(x) => deleg_visit(c, *x, s1),
                None => s1,
            }
        },
        ExprKind::Let { init, .. } => deleg_visit(c, *init, s),
        ExprKind::Closure(_) => s,
        ExprKind::Other(cs) => deleg_visit_seq(c, cs@, s),
    }
}

/// Visiting a sequence of expressions in order.
pub open spec fn deleg_visit_seq(c: DelegatedCtx, es: Seq<Expr>, s: DelegatedScan) -> DelegatedScan
    decreases es, 0nat,
{
    if es.len() == 0 {
        s
    } else {
        deleg_visit(c, es[es.len() - 1], deleg_visit_seq(c, es.subrange(0, es.len() - 1), s))
    }
}

/// Visiting a block's statements in order; a `let` is visited as a local.
pub open spec fn deleg_visit_stmts(c: DelegatedCtx, ss: Seq<Stmt>, s: DelegatedScan) -> DelegatedScan
    decreases ss, 0nat,
{
    if ss.len() == 0 {
        s
    } else {
        let s0 = deleg_visit_stmts(c, ss.subrange(0, ss.len() - 1), s);
        match ss[ss.len() - 1] {
            Stmt::Let { pat_hir_id, binding, init } => {
                let s1 = deleg_local_effect(c, s0, pat_hir_id, binding, init);
                match init {
                    Some(i) => deleg_visit(c, i, s1),
                    None => s1,
                }
            },
            Stmt::Expr(x) => deleg_visit(c, x, s0),
            Stmt::Item => s0,
        }
    }
}

/// The walk over a function body that gathers its authorizations of parameters and its call
/// sites.
pub struct DelegatedSpendingFromAuthVisitor {
    pub facts: HashMap<u64, NodeFacts>,
    pub param_by_hir: HashMap<u64, usize>,
    pub aliases: HashMap<u64, u64>,
    pub auth_events: Vec<AuthEvent>,
    pub call_sites: Vec<CallSite>,
    pub alias_rank: Ghost<Map<u64, nat>>,
    pub alias_bound: Ghost<nat>,
}

/// The index of each parameter binding; when two parameters share a binding, the later one.
pub open spec fn param_index_of(ps: Seq<ParamInfo>) -> Map<u64, usize>
    decreases ps.len(),
{
    if ps.len() == 0 {
        Map::empty()
    } else {
        param_index_of(ps.subrange(0, ps.len() - 1)).insert(ps[ps.len() - 1].hir_id, (ps.len() - 1) as usize)
    }
}

impl DelegatedSpendingFromAuthVisitor {
    /// What the walk reads.
    pub open spec fn ctx(&self) -> DelegatedCtx {
        DelegatedCtx { param_by_hir: self.param_by_hir@, facts: self.facts@ }
    }

    /// What the walk has gathered.
    pub open spec fn state(&self) -> DelegatedScan {
        DelegatedScan {
            aliases: self.aliases@,
            events: self.auth_events@,
            calls: self.call_sites@.map_values(|cs: CallSite| call_site_view(cs)),
        }
    }

    /// Following aliases stops.
    pub open spec fn inv(&self) -> bool {
        aliases_ranked(self.aliases@, self.alias_rank@, self.alias_bound@)
    }

    /// A walk over a body with parameters `params`, with nothing gathered.
    #[verifier::loop_isolation(false)]
    pub fn new(facts: HashMap<u64, NodeFacts>, params: Vec<ParamInfo>) -> (r: DelegatedSpendingFromAuthVisitor)
        ensures
            r.inv(),
            r.ctx() == (DelegatedCtx { param_by_hir: param_index_of(params@), facts: facts@ }),
            r.state() == (DelegatedScan { aliases: Map::empty(), events: Seq::empty(), calls: Seq::empty() }),
    {
        let mut param_by_hir: HashMap<u64, usize> = HashMap::new();
        let mut i: usize = 0;
        while i < params.len()
            invariant
                i <= params@.len(),
                param_by_hir@ == param_index_of(params@.subrange(0, i as int)),
            decreases params@.len() - i,
        {
            param_by_hir.insert(params[i].hir_id, i);
            proof {
                let q = params@.subrange(0, i + 1);
                assert(q.subrange(0, q.len() - 1) =~= params@.subrange(0, i as int));
            }
            i = i + 1;
        }
        assert(params@.subrange(0, params@.len() as int) =~= params@);
        let r = DelegatedSpendingFromAuthVisitor {
            facts,
            param_by_hir,
            aliases: HashMap::new(),
            auth_events: Vec::new(),
            call_sites: Vec::new(),
            alias_rank: Ghost(Map::empty()),
            alias_bound: Ghost(0),
        };
        assert(r.state().calls =~= Seq::<CallSiteView>::empty());
        assert(r.state().events =~= Seq::<AuthEvent>::empty());
        r
    }

    fn arg_param_exec(&self, e: &Expr) -> (r: Option<usize>)
        requires
            self.inv(),
        ensures
            r == deleg_arg_param(self.ctx(), self.aliases@, *e),
    {
        match resolve_expr_to_param(e, &self.aliases, &self.param_by_hir) {
            Some(h) => match self.param_by_hir.get(&h) {
                Some(i) => Some(*i),
                None => None,
            },
            None => None,
        }
    }

    #[verifier::loop_isolation(false)]
    fn record(&mut self, expr: &Expr)
        requires
            old(self).inv(),
        ensures
            final(self).inv(),
            final(self).ctx() == old(self).ctx(),
            final(self).state() == deleg_effect(old(self).ctx(), old(self).state(), *expr),
    {
        proof {
            reveal_strlit("require_auth");
            reveal_strlit("require_auth_for_args");
        }
        if let ExprKind::Call { callee, args } = &expr.kind {
            if let ExprKind::Path(_) = &callee.kind {
                let d_opt = match self.facts.get(&callee.hir_id) {
                    Some(f) => f.res_def_id,
                    None => None,
                };
                if let Some(d) = d_opt {
                    let ghost c = self.ctx();
                    let ghost al = self.aliases@;
                    let mut arg_to_param: Vec<Option<usize>> = Vec::new();
                    let mut j: usize = 0;
                    while j < args.len()
                        invariant
                            j <= args@.len(),
                            arg_to_param@ == args@.subrange(0, j as int).map_values(|a: Expr| deleg_arg_param(c, al, a)),
                        decreases args@.len() - j,
                    {
                        let x = self.arg_param_exec(&args[j]);
                        arg_to_param.push(x);
                        assert(args@.subrange(0, j + 1).map_values(|a: Expr| deleg_arg_param(c, al, a))
                            =~= args@.subrange(0, j as int).map_values(|a: Expr| deleg_arg_param(c, al, a)).push(x));
                        j = j + 1;
                    }
                    assert(args@.subrange(0, args@.len() as int) =~= args@);
                    let ghost before = self.call_sites@;
                    let site = CallSite { callee_def_id: d, arg_to_param, span: expr.span };
                    self.call_sites.push(site);
                    assert(self.call_sites@.map_values(|cs: CallSite| call_site_view(cs))
                        =~= before.map_values(|cs: CallSite| call_site_view(cs)).push(call_site_view(site)));
                }
            }
        }
        if let ExprKind::MethodCall { method, receiver, .. } = &expr.kind {
            if str_eq(method.as_str(), "require_auth") || str_eq(method.as_str(), "require_auth_for_args") {
                if let Some(h) = resolve_expr_to_param(receiver, &self.aliases, &self.param_by_hir) {
                    if let Some(pi) = self.param_by_hir.get(&h) {
                        self.auth_events.push(AuthEvent { param_index: *pi, span: expr.span });
                    }
                }
            }
        }
    }

    /// What `let pat = init` records, before the initializer is visited.
    pub fn visit_local(&mut self, pat_hir_id: u64, binding: &Option<String>, init: &Option<Expr>)
        requires
            old(self).inv(),
        ensures
            final(self).inv(),
            final(self).ctx() == old(self).ctx(),
            final(self).state() == deleg_local_effect(old(self).ctx(), old(self).state(), pat_hir_id, *binding, *init),
    {
        if let Some(i) = init {
            if binding.is_some() {
                if let Some(h) = resolve_expr_to_param(i, &self.aliases, &self.param_by_hir) {
                    proof {
                        lemma_alias_insert_ranked(self.aliases@, self.alias_rank@, self.alias_bound@, pat_hir_id, h);
                    }
                    self.aliases.insert(pat_hir_id, h);
                    self.alias_rank = Ghost(self.alias_rank@.insert(pat_hir_id, self.alias_bound@ + 1));
                    self.alias_bound = Ghost(self.alias_bound@ + 1);
                }
            }
        }
    }

    /// Visits `e`, as [`deleg_visit`] states.
    pub fn visit_expr(&mut self, e: &Expr)
        requires
            old(self).inv(),
        ensures
            final(self).inv(),
            final(self).ctx() == old(self).ctx(),
            final(self).state() == deleg_visit(old(self).ctx(), *e, old(self).state()),
        decreases *e, 1nat,
    {
        self.record(e);
        self.walk_expr(e);
    }

    fn walk_expr(&mut self, e: &Expr)
        requires
            old(self).inv(),
        ensures
            final(self).inv(),
            final(self).ctx() == old(self).ctx(),
            final(self).state() == deleg_walk(old(self).ctx(), *e, old(self).state()),
        decreases *e, 0nat,
    {
        match &e.kind {
            ExprKind::Lit(_) => {},
            ExprKind::Path(_) => {},
            ExprKind::Binary(_, l, r) => {
                self.visit_expr(l);
                self.visit_expr(r);
            },
            ExprKind::AssignOp(_, l, r) => {
                self.visit_expr(r);
                self.visit_expr(l);
            },
            ExprKind::Assign(l, r) => {
                self.visit_expr(r);
                self.visit_expr(l);
            },
            ExprKind::Unary(_, x) => self.visit_expr(x),
            ExprKind::AddrOf(_, x) => self.visit_expr(x),
            ExprKind::DropTemps(x) => self.visit_expr(x),
            ExprKind::Cast(x, _) => self.visit_expr(x),
            ExprKind::MethodCall { receiver, args, .. } => {
                self.visit_expr(receiver);
                self.visit_exprs(args);
            },
            ExprKind::Call { callee, args } => {
                self.visit_expr(callee);
                self.visit_exprs(args);
            },
            ExprKind::Block { stmts, tail } => {
                self.visit_stmts(stmts);
                if let Some(t) = tail {
                    self.visit_expr(t);
                }
            },
            ExprKind::If { cond, then, els } => {
                self.visit_expr(cond);
                self.visit_expr(then);
                if let Some(x) = els {
                    self.visit_expr(x);
                }
            },
            ExprKind::Let { init, .. } => self.visit_expr(init),
            ExprKind::Closure(_) => {},
            ExprKind::Other(cs) => self.visit_exprs(cs),
        }
    }

    #[verifier::loop_isolation(false)]
    fn visit_exprs(&mut self, es: &Vec<Expr>)
        requires
            old(self).inv(),
        ensures
            final(self).inv(),
            final(self).ctx() == old(self).ctx(),
            final(self).state() == deleg_visit_seq(old(self).ctx(), es@, old(self).state()),
        decreases *es, 0nat,
    {
        let ghost c = self.ctx();
        let ghost s0 = self.state();
        let mut i: usize = 0;
        while i < es.len()
            invariant
                i <= es@.len(),
                self.inv(),
                self.ctx() == c,
                self.state() == deleg_visit_seq(c, es@.subrange(0, i as int), s0),
            decreases es@.len() - i,
        {
            proof {
                assert(decreases_to!(*es => es@));
                assert(decreases_to!(es@ => es@[i as int]));
                let p = es@.subrange(0, i + 1);
                assert(p.subrange(0, p.len() - 1) =~= es@.subrange(0, i as int));
            }
            self.visit_expr(&es[i]);
            i = i + 1;
        }
        assert(es@.subrange(0, es@.len() as int) =~= es@);
    }

    #[verifier::loop_isolation(false)]
    fn visit_stmts(&mut self, stmts: &Vec<Stmt>)
        requires
            old(self).inv(),
        ensures
            final(self).inv(),
            final(self).ctx() == old(self).ctx(),
            final(self).state() == deleg_visit_stmts(old(self).ctx(), stmts@, old(self).state()),
        decreases *stmts, 0nat,
    {
        let ghost c = self.ctx();
        let ghost s0 = self.state();
        let mut i: usize = 0;
        while i < stmts.len()
            invariant
                i <= stmts@.len(),
                self.inv(),
                self.ctx() == c,
                self.state() == deleg_visit_stmts(c, stmts@.subrange(0, i as int), s0),
            decreases stmts@.len() - i,
        {
            proof {
                let p = stmts@.subrange(0, i + 1);
                assert(p.subrange(0, p.len() - 1) =~= stmts@.subrange(0, i as int));
                assert(p[p.len() - 1] == stmts@[i as int]);
                assert(decreases_to!(*stmts => stmts@));
                assert(decreases_to!(stmts@ => stmts@[i as int]));
            }
            match &stmts[i] {
                Stmt::Let { pat_hir_id, binding, init } => {
                    self.visit_local(*pat_hir_id, binding, init);
                    if let Some(x) = init {
                        proof {
                            assert(decreases_to!(stmts@[i as int] => stmts@[i as int]->Let_init));
                        }
                        self.visit_expr(x);
                    }
                },
                Stmt::Expr(x) => {
                    self.visit_expr(x);
                },
                Stmt::Item => {},
            }
            i = i + 1;
        }
        assert(stmts@.subrange(0, stmts@.len() as int) =~= stmts@);
    }
}


/// A delegated-spending finding is raised only on an entrypoint whose reachable flow requires
/// authorization from both the spender and `from`, directly or through local helpers; it is
/// then reported at the first direct authorization of `from` in the entrypoint, when there is
/// one.
pub proof fn law_finding_requires_both_auths(
    entrypoints: Set<u64>,
    graph: Map<u64, Vec<u64>>,
    params: Map<u64, Vec<ParamInfo>>,
    events: Map<u64, Vec<AuthEvent>>,
    call_sites: Map<u64, Vec<CallSite>>,
    fn_spans: Map<u64, Span>,
    def_id: u64,
    candidate: DelegatedCandidate,
)
    ensures
        ({
            let s = least_summaries(Set::new(|t: u64| reaches(graph, None, def_id, t)), params, events, call_sites);
            &&& spec_delegated_finding(entrypoints, graph, params, events, call_sites, fn_spans, def_id, candidate) is Some
                ==> entrypoints.contains(def_id)
                && spec_summary_requires_auth(s, def_id, candidate.spender_param_index as int)
                && spec_summary_requires_auth(s, def_id, candidate.from_param_index as int)
            &&& (entrypoints.contains(def_id)
                && spec_summary_requires_auth(s, def_id, candidate.spender_param_index as int)
                && spec_summary_requires_auth(s, def_id, candidate.from_param_index as int)
                && spec_direct_auth_span(events, def_id, candidate.from_param_index) is Some)
                ==> spec_delegated_finding(entrypoints, graph, params, events, call_sites, fn_spans, def_id, candidate)
                    == spec_direct_auth_span(events, def_id, candidate.from_param_index)
        }),
{
}


/// The lint pass: the functions checked so far, by their definition paths, the delegated
/// candidates among them, and what the walk of each body gathered.
pub struct DelegatedSpendingFromAuth {
    pub checked_functions: Vec<String>,
    pub candidates: HashMap<u64, DelegatedCandidate>,
    pub params: HashMap<u64, Vec<ParamInfo>>,
    pub direct_auth_events: HashMap<u64, Vec<AuthEvent>>,
    pub call_sites: HashMap<u64, Vec<CallSite>>,
}

/// What the walk of a body with parameters `params` gathers.
pub open spec fn body_scan(facts: Map<u64, NodeFacts>, params: Seq<ParamInfo>, body: Expr) -> DelegatedScan {
    deleg_visit(
        DelegatedCtx { param_by_hir: param_index_of(params), facts },
        body,
        DelegatedScan { aliases: Map::empty(), events: Seq::empty(), calls: Seq::empty() },
    )
}

impl DelegatedSpendingFromAuth {
    /// A pass that has checked nothing.
    pub fn new() -> (r: Self)
        ensures
            r.checked_functions@ == Seq::<String>::empty(),
            r.candidates@ == Map::<u64, DelegatedCandidate>::empty(),
            r.params@ == Map::<u64, Vec<ParamInfo>>::empty(),
            r.direct_auth_events@ == Map::<u64, Vec<AuthEvent>>::empty(),
            r.call_sites@ == Map::<u64, Vec<CallSite>>::empty(),
    {
        DelegatedSpendingFromAuth {
            checked_functions: Vec::new(),
            candidates: HashMap::new(),
            params: HashMap::new(),
            direct_auth_events: HashMap::new(),
            call_sites: HashMap::new(),
        }
    }

    /// Checks the function `def_id`, whose definition path is `def_path`: the path is
    /// recorded; unless the function comes from a macro expansion, its parameters (by their
    /// bindings `param_hir_ids`), its authorizations and its call sites are recorded, and so
    /// is the delegated candidate it is, if any. `implements_token_interface` and
    /// `param_is_address` are what the type checker says of its signature.
    pub fn check_fn(
        &mut self,
        def_id: u64,
        def_path: &str,
        from_expansion: bool,
        param_hir_ids: &Vec<u64>,
        body: &Expr,
        facts: HashMap<u64, NodeFacts>,
        implements_token_interface: bool,
        param_is_address: &Vec<bool>,
    )
        ensures
            forall|x: Seq<char>| names_contain(final(self).checked_functions@, x) <==> (names_contain(old(self).checked_functions@, x) || x == def_path@),
            from_expansion ==> {
                &&& final(self).candidates@ == old(self).candidates@
                &&& final(self).params@ == old(self).params@
                &&& final(self).direct_auth_events@ == old(self).direct_auth_events@
                &&& final(self).call_sites@ == old(self).call_sites@
            },
            !from_expansion ==> ({
                let ps = param_hir_ids@.map_values(|h: u64| ParamInfo { hir_id: h });
                let scan = body_scan(facts@, ps, *body);
                &&& exists|v: Vec<ParamInfo>| v@ == ps && final(self).params@ == old(self).params@.insert(def_id, v)
                &&& exists|v: Vec<AuthEvent>| v@ == scan.events && final(self).direct_auth_events@ == old(self).direct_auth_events@.insert(def_id, v)
                &&& exists|v: Vec<CallSite>| v@.map_values(|c: CallSite| call_site_view(c)) == scan.calls
                    && final(self).call_sites@ == old(self).call_sites@.insert(def_id, v)
                &&& final(self).candidates@ == match spec_candidate_for_fn(def_path@, implements_token_interface, param_is_address@) {
                    Some(c) => old(self).candidates@.insert(def_id, c),
                    None => old(self).candidates@,
                }
            }),
    {
        push_name(&mut self.checked_functions, def_path);
        if from_expansion {
            return;
        }
        let params = collect_param_info(param_hir_ids);
        let visitor_params = collect_param_info(param_hir_ids);
        let mut visitor = DelegatedSpendingFromAuthVisitor::new(facts, visitor_params);
        visitor.visit_expr(body);
        let ghost pv = params;
        let ghost ev = visitor.auth_events;
        let ghost cv = visitor.call_sites;
        self.params.insert(def_id, params);
        self.direct_auth_events.insert(def_id, visitor.auth_events);
        self.call_sites.insert(def_id, visitor.call_sites);
        if let Some(candidate) = candidate_for_fn(def_path, implements_token_interface, param_is_address) {
            self.candidates.insert(def_id, candidate);
        }
        assert(self.params@ == old(self).params@.insert(def_id, pv));
        assert(self.direct_auth_events@ == old(self).direct_auth_events@.insert(def_id, ev));
        assert(self.call_sites@ == old(self).call_sites@.insert(def_id, cv));
    }

    /// The findings at the end of the crate, given the contract's entrypoints, the call graph
    /// of the crate and the spans of the local functions: those of [`delegated_findings`] over
    /// the candidates recorded, in no particular order.
    pub fn check_crate_post(
        &self,
        entrypoints: &std::collections::HashSet<u64>,
        function_call_graph: &HashMap<u64, Vec<u64>>,
        fn_spans: &HashMap<u64, Span>,
    ) -> (r: Vec<Span>)
        ensures
            r@.to_multiset() == findings_of(self.candidates@, entrypoints@, function_call_graph@, self.params@, self.direct_auth_events@, self.call_sites@, fn_spans@),
    {
        delegated_findings(&self.candidates, entrypoints, function_call_graph, &self.params, &self.direct_auth_events, &self.call_sites, fn_spans)
    }
}

} // verus!
