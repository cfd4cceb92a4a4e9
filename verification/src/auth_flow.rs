//! The authorization flow over a function's MIR for the new-admin check: where each
//! authorization and each write of a new admin takes effect, the transfer functions of the
//! flow analysis, and what its results give a function's summary and its findings.
use vstd::prelude::*;
use std::collections::HashMap;
use crate::hir::Span;
use crate::mir::{Operand, Place, Rvalue, StatementKind, Statement, TerminatorKind, Terminator, BasicBlockData, all_targets};
use crate::admin_auth::{ParamInfo, Sink, AuthEvent, CallSite, CallSiteView, call_site_view};

verus! {

broadcast use vstd::std_specs::hash::group_hash_axioms;

/// A program point of a MIR body: a block and the index of a statement in it (the number of
/// statements for the terminator).
#[derive(Debug, Clone, Copy, PartialEq, Eq, Hash, Structural)]
pub struct Location {
    pub block: usize,
    pub statement_index: usize,
}

/// The two spans share a position.
pub open spec fn spec_spans_overlap(a: Span, b: Span) -> bool {
    a.lo <= b.hi && b.lo <= a.hi
}

/// Whether the two spans share a position.
pub fn spans_overlap(a: Span, b: Span) -> (r: bool)
    ensures
        r == spec_spans_overlap(a, b),
{
    a.lo <= b.hi && b.lo <= a.hi
}

/// The length of a span; zero for a span that ends before it starts.
pub open spec fn spec_span_len(s: Span) -> u32 {
    if s.hi >= s.lo { (s.hi - s.lo) as u32 } else { 0 }
}

/// The length of a span, saturating at zero.
pub fn span_len(s: Span) -> (r: u32)
    ensures
        r == spec_span_len(s),
{
    s.hi.saturating_sub(s.lo)
}

/// The function a terminator calls, when it calls a function item.
pub open spec fn spec_call_def_id(t: Terminator) -> Option<u64> {
    match t.kind {
        TerminatorKind::Call { func, .. } => match func {
            Operand::Constant(Some(d), _) => Some(d),
            _ => None,
        },
        _ => None,
    }
}

/// The function the terminator calls, if it calls a function item.
pub fn call_def_id(t: &Terminator) -> (r: Option<u64>)
    ensures
        r == spec_call_def_id(*t),
{
    match &t.kind {
        TerminatorKind::Call { func: Operand::Constant(Some(d), _), .. } => Some(*d),
        _ => None,
    }
}

/// One candidate for the best location of `target`: it replaces the best so far when its span
/// overlaps the target and is strictly shorter.
pub open spec fn best_step(best: Option<(Location, Span)>, loc: Location, span: Span, target: Span) -> Option<(Location, Span)> {
    if spec_spans_overlap(span, target) && (best is None || spec_span_len(span) < spec_span_len((best->0).1)) {
        Some((loc, span))
    } else {
        best
    }
}

/// The best location after the first `n` statements of block `b`; markers are passed over.
pub open spec fn best_in_stmts(stmts: Seq<Statement>, b: usize, target: Span, n: int, best: Option<(Location, Span)>) -> Option<(Location, Span)>
    decreases n,
{
    if n <= 0 {
        best
    } else {
        let prev = best_in_stmts(stmts, b, target, n - 1, best);
        if stmts[n - 1].kind is Marker {
            prev
        } else {
            best_step(prev, Location { block: b, statement_index: (n - 1) as usize }, stmts[n - 1].span, target)
        }
    }
}

/// The best location among the first `n` blocks: each block's statements, then its
/// terminator.
pub open spec fn best_in_blocks(bbs: Seq<BasicBlockData>, target: Span, n: int) -> Option<(Location, Span)>
    decreases n,
{
    if n <= 0 {
        None
    } else {
        let d = bbs[n - 1];
        let after = best_in_stmts(d.statements@, (n - 1) as usize, target, d.statements@.len() as int, best_in_blocks(bbs, target, n - 1));
        best_step(after, Location { block: (n - 1) as usize, statement_index: d.statements@.len() as usize }, d.terminator->0.span, target)
    }
}

/// Every block has its terminator.
pub open spec fn terminated(bbs: Seq<BasicBlockData>) -> bool {
    forall|b: int| 0 <= b < bbs.len() ==> (#[trigger] bbs[b]).terminator is Some
}

/// Where an event at `target` takes effect: the statement or terminator, not a marker, whose
/// span overlaps it and is shortest, the first such in block order.
pub open spec fn spec_best_location(bbs: Seq<BasicBlockData>, target: Span) -> Option<Location> {
    match best_in_blocks(bbs, target, bbs.len() as int) {
        Some(p) => Some(p.0),
        None => None,
    }
}

/// The location where an event with span `target` takes effect.
#[verifier::loop_isolation(false)]
pub fn find_best_location_for_event(body: &Vec<BasicBlockData>, target: Span) -> (r: Option<Location>)
    requires
        terminated(body@),
    ensures
        r == spec_best_location(body@, target),
{
    let mut best: Option<(Location, Span)> = None;
    let mut b: usize = 0;
    while b < body.len()
        invariant
            b <= body@.len(),
            best == best_in_blocks(body@, target, b as int),
        decreases body@.len() - b,
    {
        let data = &body[b];
        let ghost b0 = best;
        let mut idx: usize = 0;
        while idx < data.statements.len()
            invariant
                idx <= data.statements@.len(),
                best == best_in_stmts(data.statements@, b, target, idx as int, b0),
            decreases data.statements@.len() - idx,
        {
            let stmt = &data.statements[idx];
            if !matches!(stmt.kind, StatementKind::Marker) {
                let span = stmt.span;
                if spans_overlap(span, target) {
                    let replace = match best {
                        None => true,
                        Some((_, best_span)) => span_len(span) < span_len(best_span),
                    };
                    if replace {
                        best = Some((Location { block: b, statement_index: idx }, span));
                    }
                }
            }
            idx = idx + 1;
        }
        assert(body@[b as int].terminator is Some);
        let term = match &data.terminator {
            Some(t) => t,
            None => {
                return None;
            },
        };
        let span = term.span;
        if spans_overlap(span, target) {
            let replace = match best {
                None => true,
                Some((_, best_span)) => span_len(span) < span_len(best_span),
            };
            if replace {
                best = Some((Location { block: b, statement_index: data.statements.len() }, span));
            }
        }
        b = b + 1;
    }
    match best {
        Some((loc, _)) => Some(loc),
        None => None,
    }
}

/// Each authorization with a location, paired with it, in order.
pub open spec fn events_at_locations(bbs: Seq<BasicBlockData>, events: Seq<AuthEvent>) -> Seq<(Location, AuthEvent)> {
    events.filter_map(|e: AuthEvent| match spec_best_location(bbs, e.span) {
        Some(l) => Some((l, e)),
        None => None,
    })
}

/// The authorizations with the locations where they take effect; one without a location is
/// dropped.
#[verifier::loop_isolation(false)]
pub fn map_events_to_locations(body: &Vec<BasicBlockData>, events: &[AuthEvent]) -> (r: Vec<(Location, AuthEvent)>)
    requires
        terminated(body@),
    ensures
        r@ == events_at_locations(body@, events@),
{
    let ghost f = |e: AuthEvent| match spec_best_location(body@, e.span) {
        Some(l) => Some((l, e)),
        None => None,
    };
    let mut r: Vec<(Location, AuthEvent)> = Vec::new();
    let mut k: usize = 0;
    while k < events.len()
        invariant
            k <= events@.len(),
            r@ == events@.take(k as int).filter_map(f),
        decreases events@.len() - k,
    {
        let e = events[k];
        let loc = find_best_location_for_event(body, e.span);
        proof {
            events@.lemma_filter_map_take_succ(f, k as int);
        }
        if let Some(l) = loc {
            r.push((l, e));
            assert(r@ =~= events@.take(k as int).filter_map(f) + seq![(l, e)]);
        } else {
            assert(r@ =~= events@.take(k as int).filter_map(f) + Seq::<(Location, AuthEvent)>::empty());
        }
        k = k + 1;
    }
    assert(events@.take(events@.len() as int) =~= events@);
    r
}

/// Each sink with a location, paired with it, in order.
pub open spec fn sinks_at_locations(bbs: Seq<BasicBlockData>, sinks: Seq<Sink>) -> Seq<(Location, Sink)> {
    sinks.filter_map(|e: Sink| match spec_best_location(bbs, e.span) {
        Some(l) => Some((l, e)),
        None => None,
    })
}

/// The sinks with the locations where they take effect; one without a location is dropped.
#[verifier::loop_isolation(false)]
pub fn map_sinks_to_locations(body: &Vec<BasicBlockData>, sinks: &[Sink]) -> (r: Vec<(Location, Sink)>)
    requires
        terminated(body@),
    ensures
        r@ == sinks_at_locations(body@, sinks@),
{
    let ghost f = |e: Sink| match spec_best_location(body@, e.span) {
        Some(l) => Some((l, e)),
        None => None,
    };
    let mut r: Vec<(Location, Sink)> = Vec::new();
    let mut k: usize = 0;
    while k < sinks.len()
        invariant
            k <= sinks@.len(),
            r@ == sinks@.take(k as int).filter_map(f),
        decreases sinks@.len() - k,
    {
        let e = sinks[k];
        let loc = find_best_location_for_event(body, e.span);
        proof {
            sinks@.lemma_filter_map_take_succ(f, k as int);
        }
        if let Some(l) = loc {
            r.push((l, e));
            assert(r@ =~= sinks@.take(k as int).filter_map(f) + seq![(l, e)]);
        } else {
            assert(r@ =~= sinks@.take(k as int).filter_map(f) + Seq::<(Location, Sink)>::empty());
        }
        k = k + 1;
    }
    assert(sinks@.take(sinks@.len() as int) =~= sinks@);
    r
}

/// The best call site among the first `n` for a call of `d` at `tspan`: one of `d` whose
/// span overlaps and is strictly shorter than the best so far.
pub open spec fn best_site(sites: Seq<CallSiteView>, d: u64, tspan: Span, n: int) -> Option<int>
    decreases n,
{
    if n <= 0 {
        None
    } else {
        let prev = best_site(sites, d, tspan, n - 1);
        let cs = sites[n - 1];
        if cs.callee_def_id == d && spec_spans_overlap(tspan, cs.span)
            && (prev is None || spec_span_len(cs.span) < spec_span_len(sites[prev->0].span)) {
            Some(n - 1)
        } else {
            prev
        }
    }
}

proof fn lemma_best_site_range(sites: Seq<CallSiteView>, d: u64, tspan: Span, n: int)
    requires
        n <= sites.len(),
    ensures
        best_site(sites, d, tspan, n) matches Some(i) ==> 0 <= i < n,
    decreases n,
{
    if n > 0 {
        lemma_best_site_range(sites, d, tspan, n - 1);
    }
}

/// The call site of block `b`, if its terminator calls a function and a call site of that
/// function overlaps it.
pub open spec fn block_site(bbs: Seq<BasicBlockData>, sites: Seq<CallSiteView>, b: int) -> Option<(usize, CallSiteView)> {
    let t = bbs[b].terminator->0;
    match spec_call_def_id(t) {
        Some(d) => match best_site(sites, d, t.span, sites.len() as int) {
            Some(i) => Some((b as usize, sites[i])),
            None => None,
        },
        None => None,
    }
}

/// The call sites of the blocks, in block order.
pub open spec fn sites_of_blocks(bbs: Seq<BasicBlockData>, sites: Seq<CallSiteView>) -> Seq<(usize, CallSiteView)> {
    Seq::new(bbs.len(), |b: int| b).filter_map(|b: int| block_site(bbs, sites, b))
}

fn copy_site(cs: &CallSite) -> (r: CallSite)
    ensures
        call_site_view(r) == call_site_view(*cs),
{
    let mut v: Vec<Option<usize>> = Vec::new();
    let mut j: usize = 0;
    while j < cs.arg_to_param.len()
        invariant
            j <= cs.arg_to_param@.len(),
            v@ == cs.arg_to_param@.subrange(0, j as int),
        decreases cs.arg_to_param@.len() - j,
    {
        v.push(cs.arg_to_param[j]);
        assert(v@ =~= cs.arg_to_param@.subrange(0, j + 1));
        j = j + 1;
    }
    assert(v@ =~= cs.arg_to_param@);
    CallSite { callee_def_id: cs.callee_def_id, arg_to_param: v, span: cs.span }
}

/// Each block whose terminator calls a function, paired with the call site that best matches
/// the call: one of that function whose span overlaps the call's and is shortest, the first
/// such.
#[verifier::loop_isolation(false)]
pub fn map_callsites_to_blocks(body: &Vec<BasicBlockData>, callsites: &[CallSite]) -> (r: Vec<(usize, CallSite)>)
    requires
        terminated(body@),
    ensures
        r@.map_values(|p: (usize, CallSite)| (p.0, call_site_view(p.1)))
            == sites_of_blocks(body@, callsites@.map_values(|c: CallSite| call_site_view(c))),
{
    let ghost sv = callsites@.map_values(|c: CallSite| call_site_view(c));
    let ghost idx = Seq::new(body@.len(), |b: int| b);
    let ghost f = |b: int| block_site(body@, sv, b);
    let ghost g = |p: (usize, CallSite)| (p.0, call_site_view(p.1));
    let mut r: Vec<(usize, CallSite)> = Vec::new();
    let mut b: usize = 0;
    while b < body.len()
        invariant
            b <= body@.len(),
            idx == Seq::new(body@.len(), |b: int| b),
            r@.map_values(g) == idx.take(b as int).filter_map(f),
        decreases body@.len() - b,
    {
        proof {
            idx.lemma_filter_map_take_succ(f, b as int);
        }
        let data = &body[b];
        assert(body@[b as int].terminator is Some);
        let term = match &data.terminator {
            Some(t) => t,
            None => {
                return r;
            },
        };
        let mut found: Option<usize> = None;
        if let Some(d) = call_def_id(term) {
            let tspan = term.span;
            let mut k: usize = 0;
            while k < callsites.len()
                invariant
                    k <= callsites@.len(),
                    sv == callsites@.map_values(|c: CallSite| call_site_view(c)),
                    found matches Some(i) ==> best_site(sv, d, tspan, k as int) == Some(i as int) && i < k,
                    found is None ==> best_site(sv, d, tspan, k as int) is None,
                decreases callsites@.len() - k,
            {
                let cs = &callsites[k];
                assert(sv[k as int] == call_site_view(*cs));
                if cs.callee_def_id == d && spans_overlap(tspan, cs.span) {
                    let better = match found {
                        None => true,
                        Some(i) => {
                            assert(sv[i as int] == call_site_view(callsites@[i as int]));
                            span_len(cs.span) < span_len(callsites[i].span)
                        },
                    };
                    if better {
                        found = Some(k);
                    }
                }
                k = k + 1;
            }
            if let Some(i) = found {
                assert(callsites@.len() == sv.len());
                let site = copy_site(&callsites[i]);
                let ghost before = r@;
                r.push((b, site));
                proof {
                    assert(sv[i as int] == call_site_view(callsites@[i as int]));
                    assert(idx[b as int] == b as int);
                    assert(best_site(sv, d, tspan, sv.len() as int) == Some(i as int));
                    assert(f(idx[b as int]) == Some((b, call_site_view(site))));
                    assert(r@.map_values(g) =~= before.map_values(g).push(g((b, site))));
                    assert(r@.map_values(g) =~= idx.take(b as int).filter_map(f) + seq![(b, call_site_view(site))]);
                }
            } else {
                proof {
                    assert(f(idx[b as int]) is None);
                    assert(r@.map_values(g) =~= idx.take(b as int).filter_map(f) + Seq::<(usize, CallSiteView)>::empty());
                }
            }
        } else {
            proof {
                assert(f(idx[b as int]) is None);
                assert(r@.map_values(g) =~= idx.take(b as int).filter_map(f) + Seq::<(usize, CallSiteView)>::empty());
            }
        }
        b = b + 1;
    }
    assert(idx.take(body@.len() as int) =~= idx);
    r
}

/// The flow state at a point: which address parameters may still be unauthorized, and
/// whether the current admin may be.
pub struct AuthDomain {
    pub unauth_params: Vec<bool>,
    pub current_admin_unauth: bool,
}

/// What a function guarantees to have authorized on every path to its exits: a flag per
/// parameter, and one for the current admin.
pub struct FnSummary {
    pub must_auth_params: Vec<bool>,
    pub must_auth_current_admin: bool,
}

/// The union of two flag sequences.
pub open spec fn union_bits(a: Seq<bool>, b: Seq<bool>) -> Seq<bool> {
    Seq::new(a.len(), |i: int| a[i] || b[i])
}

impl AuthDomain {
    /// Joins `other` into this state; says whether the state changed.
    pub fn join(&mut self, other: &AuthDomain) -> (changed: bool)
        requires
            old(self).unauth_params@.len() == other.unauth_params@.len(),
        ensures
            final(self).unauth_params@ == union_bits(old(self).unauth_params@, other.unauth_params@),
            final(self).current_admin_unauth == (old(self).current_admin_unauth || other.current_admin_unauth),
            changed == (final(self).unauth_params@ != old(self).unauth_params@
                || final(self).current_admin_unauth != old(self).current_admin_unauth),
    {
        let ghost before = self.unauth_params@;
        let mut changed = false;
        let mut i: usize = 0;
        while i < self.unauth_params.len()
            invariant
                i <= before.len(),
                before.len() == other.unauth_params@.len(),
                self.unauth_params@.len() == before.len(),
                forall|k: int| 0 <= k < i ==> #[trigger] self.unauth_params@[k] == (before[k] || other.unauth_params@[k]),
                forall|k: int| i <= k < before.len() ==> #[trigger] self.unauth_params@[k] == before[k],
                changed == exists|k: int| 0 <= k < i && #[trigger] before[k] != self.unauth_params@[k],
                self.current_admin_unauth == old(self).current_admin_unauth,
            decreases before.len() - i,
        {
            if other.unauth_params[i] && !self.unauth_params[i] {
                self.unauth_params.set(i, true);
                changed = true;
            }
            proof {
                if changed {
                    if !(exists|k: int| 0 <= k < i && #[trigger] before[k] != self.unauth_params@[k]) {
                        assert(before[i as int] != self.unauth_params@[i as int]);
                    }
                }
            }
            i = i + 1;
        }
        proof {
            assert(self.unauth_params@ =~= union_bits(before, other.unauth_params@));
            if !changed {
                assert(self.unauth_params@ =~= before);
            } else {
                let k = choose|k: int| 0 <= k < before.len() && #[trigger] before[k] != self.unauth_params@[k];
                assert(self.unauth_params@[k] != before[k]);
            }
        }
        if !self.current_admin_unauth && other.current_admin_unauth {
            self.current_admin_unauth = true;
            changed = true;
        }
        changed
    }
}

fn all_false(n: usize) -> (r: Vec<bool>)
    ensures
        r@.len() == n,
        forall|i: int| 0 <= i < n ==> !#[trigger] r@[i],
{
    let mut v: Vec<bool> = Vec::new();
    let mut i: usize = 0;
    while i < n
        invariant
            i <= n,
            v@.len() == i,
            forall|k: int| 0 <= k < i ==> !#[trigger] v@[k],
        decreases n - i,
    {
        v.push(false);
        i = i + 1;
    }
    v
}

impl FnSummary {
    /// A summary of `param_count` parameters that guarantees nothing.
    pub fn empty(param_count: usize) -> (r: FnSummary)
        ensures
            r.must_auth_params@.len() == param_count,
            forall|i: int| 0 <= i < param_count ==> !#[trigger] r.must_auth_params@[i],
            !r.must_auth_current_admin,
    {
        FnSummary { must_auth_params: all_false(param_count), must_auth_current_admin: false }
    }
}

/// The flags of the address parameters.
pub fn address_param_set(params: &[ParamInfo]) -> (r: Vec<bool>)
    ensures
        r@ == params@.map_values(|p: ParamInfo| p.is_address),
{
    let mut r: Vec<bool> = Vec::new();
    let mut i: usize = 0;
    while i < params.len()
        invariant
            i <= params@.len(),
            r@ == params@.subrange(0, i as int).map_values(|p: ParamInfo| p.is_address),
        decreases params@.len() - i,
    {
        r.push(params[i].is_address);
        assert(r@ =~= params@.subrange(0, i + 1).map_values(|p: ParamInfo| p.is_address));
        i = i + 1;
    }
    assert(params@.subrange(0, params@.len() as int) =~= params@);
    r
}

/// A terminator after which the function does not go on: it has no successor.
pub fn is_summary_exit(t: &Terminator) -> (r: bool)
    ensures
        r == (all_targets(t.kind).len() == 0),
{
    match &t.kind {
        TerminatorKind::Call { target, .. } => target.is_none(),
        TerminatorKind::SwitchInt { targets, .. } => targets.len() == 0,
        TerminatorKind::InlineAsm { targets } => targets.len() == 0,
        TerminatorKind::Other => true,
        _ => false,
    }
}

/// The optional parameter index is `i`.
pub open spec fn names_param(o: Option<usize>, i: int) -> bool {
    o matches Some(p) && p as int == i
}

/// The effect of the authorizations at `loc` on the parameter flags: each one on a
/// parameter clears its flag.
pub open spec fn cleared_params(bits: Seq<bool>, events: Seq<(Location, AuthEvent)>, loc: Location) -> Seq<bool> {
    Seq::new(bits.len(), |i: int| bits[i] && !exists|k: int| 0 <= k < events.len() && #[trigger] events[k].0 == loc
        && names_param(events[k].1.param_index, i))
}

/// Some authorization at `loc` is of the current admin.
pub open spec fn admin_authed_at(events: Seq<(Location, AuthEvent)>, loc: Location) -> bool {
    exists|k: int| 0 <= k < events.len() && #[trigger] events[k].0 == loc && events[k].1.is_current_admin
}

/// The analysis of one function's flow: its address parameters, where its authorizations take
/// effect, the call site of each calling block, and the summaries of the functions called.
pub struct AuthFlowAnalysis {
    pub param_count: usize,
    pub address_params: Vec<bool>,
    pub auth_events_by_loc: Vec<(Location, AuthEvent)>,
    pub callsite_by_block: Vec<(usize, CallSite)>,
    pub fn_summaries: HashMap<u64, FnSummary>,
}

/// The table of call sites by block, by value.
pub open spec fn site_table(v: Seq<(usize, CallSite)>) -> Seq<(usize, CallSiteView)> {
    v.map_values(|p: (usize, CallSite)| (p.0, call_site_view(p.1)))
}

/// The call site of `block`: the first the table pairs with it.
pub open spec fn site_of_block(table: Seq<(usize, CallSiteView)>, block: usize) -> Option<CallSiteView> {
    if exists|k: int| 0 <= k < table.len() && #[trigger] table[k].0 == block {
        let k = choose|k: int| 0 <= k < table.len() && #[trigger] table[k].0 == block
            && forall|k2: int| 0 <= k2 < k ==> #[trigger] table[k2].0 != block;
        Some(table[k].1)
    } else {
        None
    }
}

/// The summaries, by value.
pub open spec fn summary_views(m: Map<u64, FnSummary>) -> Map<u64, (Seq<bool>, bool)> {
    Map::new(|k: u64| m.dom().contains(k), |k: u64| (m[k].must_auth_params@, m[k].must_auth_current_admin))
}

/// The parameter flags after a call returns through `site`: a caller parameter passed to a
/// callee parameter that the callee's summary authorizes is cleared.
pub open spec fn after_call_params(bits: Seq<bool>, site: CallSiteView, summary: Seq<bool>) -> Seq<bool> {
    Seq::new(bits.len(), |i: int| bits[i] && !exists|j: int| 0 <= j < site.arg_to_param.len()
        && names_param(#[trigger] site.arg_to_param[j], i) && summary[j])
}

impl AuthFlowAnalysis {
    /// The analysis of a function with parameters `params`, authorizations `events` and call
    /// sites `callsites`, over `body`, given the summaries of the functions it may call.
    pub fn new(
        body: &Vec<BasicBlockData>,
        params: &[ParamInfo],
        events: &[AuthEvent],
        callsites: &[CallSite],
        fn_summaries: HashMap<u64, FnSummary>,
    ) -> (r: AuthFlowAnalysis)
        requires
            terminated(body@),
        ensures
            r.param_count == params@.len(),
            r.address_params@ == params@.map_values(|p: ParamInfo| p.is_address),
            r.auth_events_by_loc@ == events_at_locations(body@, events@),
            r.callsite_by_block@.map_values(|p: (usize, CallSite)| (p.0, call_site_view(p.1)))
                == sites_of_blocks(body@, callsites@.map_values(|c: CallSite| call_site_view(c))),
            r.fn_summaries@ == fn_summaries@,
    {
        AuthFlowAnalysis {
            param_count: params.len(),
            address_params: address_param_set(params),
            auth_events_by_loc: map_events_to_locations(body, events),
            callsite_by_block: map_callsites_to_blocks(body, callsites),
            fn_summaries,
        }
    }

    /// The state where nothing may be unauthorized.
    pub fn bottom_value(&self) -> (r: AuthDomain)
        ensures
            r.unauth_params@.len() == self.param_count,
            forall|i: int| 0 <= i < self.param_count ==> !#[trigger] r.unauth_params@[i],
            !r.current_admin_unauth,
    {
        AuthDomain { unauth_params: all_false(self.param_count), current_admin_unauth: false }
    }

    /// At the function's start every address parameter, and the current admin, may be
    /// unauthorized.
    pub fn initialize_start_block(&self, state: &mut AuthDomain)
        ensures
            final(state).unauth_params@ == self.address_params@,
            final(state).current_admin_unauth,
    {
        let mut v: Vec<bool> = Vec::new();
        let mut i: usize = 0;
        while i < self.address_params.len()
            invariant
                i <= self.address_params@.len(),
                v@ == self.address_params@.subrange(0, i as int),
            decreases self.address_params@.len() - i,
        {
            v.push(self.address_params[i]);
            assert(v@ =~= self.address_params@.subrange(0, i + 1));
            i = i + 1;
        }
        assert(v@ =~= self.address_params@);
        state.unauth_params = v;
        state.current_admin_unauth = true;
    }

    /// Applies the authorizations that take effect at `loc`: each clears its parameter's
    /// flag, and one of the current admin clears the admin's.
    #[verifier::loop_isolation(false)]
    pub fn apply_auth_events(&self, state: &mut AuthDomain, loc: Location)
        requires
            forall|k: int| 0 <= k < self.auth_events_by_loc@.len() && #[trigger] self.auth_events_by_loc@[k].0 == loc
                ==> (self.auth_events_by_loc@[k].1.param_index matches Some(p) ==> p < old(state).unauth_params@.len()),
        ensures
            final(state).unauth_params@ == cleared_params(old(state).unauth_params@, self.auth_events_by_loc@, loc),
            final(state).current_admin_unauth == (old(state).current_admin_unauth && !admin_authed_at(self.auth_events_by_loc@, loc)),
    {
        let ghost ev = self.auth_events_by_loc@;
        let ghost before = state.unauth_params@;
        let mut k: usize = 0;
        while k < self.auth_events_by_loc.len()
            invariant
                k <= ev.len(),
                ev == self.auth_events_by_loc@,
                state.unauth_params@.len() == before.len(),
                state.unauth_params@ == cleared_params(before, ev.take(k as int), loc),
                state.current_admin_unauth == (old(state).current_admin_unauth && !admin_authed_at(ev.take(k as int), loc)),
            decreases ev.len() - k,
        {
            let (l, e) = self.auth_events_by_loc[k];
            if l == loc {
                if let Some(p) = e.param_index {
                    state.unauth_params.set(p, false);
                }
                if e.is_current_admin {
                    state.current_admin_unauth = false;
                }
            }
            proof {
                let t1 = ev.take(k + 1);
                let t0 = ev.take(k as int);
                assert forall|k2: int| 0 <= k2 < t0.len() implies t1[k2] == #[trigger] t0[k2] by {}
                assert(t1[k as int] == ev[k as int]);
                assert(state.unauth_params@ =~= cleared_params(before, t1, loc)) by {
                    assert forall|i: int| 0 <= i < before.len() implies #[trigger] state.unauth_params@[i] == cleared_params(before, t1, loc)[i] by {
                        if exists|k2: int| 0 <= k2 < t1.len() && #[trigger] t1[k2].0 == loc && names_param(t1[k2].1.param_index, i) {
                            let k2 = choose|k2: int| 0 <= k2 < t1.len() && #[trigger] t1[k2].0 == loc && names_param(t1[k2].1.param_index, i);
                            if k2 < k {
                                assert(t0[k2].0 == loc);
                            }
                        }
                    }
                }
                if admin_authed_at(t1, loc) {
                    let k2 = choose|k2: int| 0 <= k2 < t1.len() && #[trigger] t1[k2].0 == loc && t1[k2].1.is_current_admin;
                    if k2 < k {
                        assert(t0[k2].0 == loc);
                    }
                }
            }
            k = k + 1;
        }
        assert(ev.take(ev.len() as int) =~= ev);
    }

    /// After the call that ends `block` returns: the parameters it passes to callee
    /// parameters that the callee's summary authorizes are cleared, and so is the current
    /// admin when the summary authorizes it.
    #[verifier::loop_isolation(false)]
    pub fn apply_call_return_effect(&self, state: &mut AuthDomain, block: usize)
        requires
            forall|k: int| 0 <= k < self.callsite_by_block@.len() ==> {
                let cs = #[trigger] self.callsite_by_block@[k].1;
                self.fn_summaries@.dom().contains(cs.callee_def_id) ==> {
                    &&& cs.arg_to_param@.len() <= self.fn_summaries@[cs.callee_def_id].must_auth_params@.len()
                    &&& forall|j: int| 0 <= j < cs.arg_to_param@.len() ==> (#[trigger] cs.arg_to_param@[j] matches Some(c) ==> c < old(state).unauth_params@.len())
                }
            },
        ensures
            ({
                let table = site_table(self.callsite_by_block@);
                let sums = summary_views(self.fn_summaries@);
                match site_of_block(table, block) {
                    Some(site) => if sums.dom().contains(site.callee_def_id) {
                        &&& final(state).unauth_params@ == after_call_params(old(state).unauth_params@, site, sums[site.callee_def_id].0)
                        &&& final(state).current_admin_unauth == (old(state).current_admin_unauth && !sums[site.callee_def_id].1)
                    } else {
                        final(state).unauth_params@ == old(state).unauth_params@
                            && final(state).current_admin_unauth == old(state).current_admin_unauth
                    },
                    None => final(state).unauth_params@ == old(state).unauth_params@
                        && final(state).current_admin_unauth == old(state).current_admin_unauth,
                }
            }),
    {
        let ghost table = site_table(self.callsite_by_block@);
        let mut k: usize = 0;
        while k < self.callsite_by_block.len()
            invariant
                k <= self.callsite_by_block@.len(),
                table == site_table(self.callsite_by_block@),
                forall|k2: int| 0 <= k2 < k ==> #[trigger] table[k2].0 != block,
                state.unauth_params@ == old(state).unauth_params@,
                state.current_admin_unauth == old(state).current_admin_unauth,
            decreases self.callsite_by_block@.len() - k,
        {
            if self.callsite_by_block[k].0 == block {
                let site = &self.callsite_by_block[k].1;
                proof {
                    assert(table[k as int].0 == block);
                    let c = choose|c: int| 0 <= c < table.len() && #[trigger] table[c].0 == block
                        && forall|k2: int| 0 <= k2 < c ==> #[trigger] table[k2].0 != block;
                    if c < k {
                        assert(table[c].0 != block);
                    } else if c > k {
                        assert(table[k as int].0 != block);
                    }
                    assert(site_of_block(table, block) == Some(call_site_view(*site)));
                }
                match self.fn_summaries.get(&site.callee_def_id) {
                    Some(summary) => {
                        let ghost b0 = state.unauth_params@;
                        let mut j: usize = 0;
                        while j < site.arg_to_param.len()
                            invariant
                                j <= site.arg_to_param@.len(),
                                site.arg_to_param@.len() <= summary.must_auth_params@.len(),
                                state.unauth_params@.len() == b0.len(),
                                state.current_admin_unauth == old(state).current_admin_unauth,
                                forall|j2: int| 0 <= j2 < site.arg_to_param@.len() ==> (#[trigger] site.arg_to_param@[j2] matches Some(c) ==> c < b0.len()),
                                state.unauth_params@ == after_call_params(b0,
                                    CallSiteView { arg_to_param: site.arg_to_param@.take(j as int), ..call_site_view(*site) },
                                    summary.must_auth_params@),
                            decreases site.arg_to_param@.len() - j,
                        {
                            let ghost prev = state.unauth_params@;
                            if summary.must_auth_params[j] {
                                if let Some(c) = site.arg_to_param[j] {
                                    state.unauth_params.set(c, false);
                                }
                            }
                            proof {
                                let a1 = site.arg_to_param@.take(j + 1);
                                let a0 = site.arg_to_param@.take(j as int);
                                assert(a1[j as int] == site.arg_to_param@[j as int]);
                                assert forall|j2: int| 0 <= j2 < j implies a1[j2] == #[trigger] a0[j2] by {}
                                assert forall|i: int| 0 <= i < b0.len() implies #[trigger] state.unauth_params@[i]
                                    == after_call_params(b0, CallSiteView { arg_to_param: a1, ..call_site_view(*site) }, summary.must_auth_params@)[i] by {
                                    assert(prev[i] == after_call_params(b0, CallSiteView { arg_to_param: a0, ..call_site_view(*site) }, summary.must_auth_params@)[i]);
                                    if exists|j2: int| 0 <= j2 < a1.len() && names_param(#[trigger] a1[j2], i) && summary.must_auth_params@[j2] {
                                        let j2 = choose|j2: int| 0 <= j2 < a1.len() && names_param(#[trigger] a1[j2], i) && summary.must_auth_params@[j2];
                                        if j2 < j {
                                            assert(names_param(a0[j2], i));
                                        }
                                    }
                                    if exists|j2: int| 0 <= j2 < a0.len() && names_param(#[trigger] a0[j2], i) && summary.must_auth_params@[j2] {
                                        let j2 = choose|j2: int| 0 <= j2 < a0.len() && names_param(#[trigger] a0[j2], i) && summary.must_auth_params@[j2];
                                        assert(names_param(a1[j2], i));
                                    }
                                }
                                assert(state.unauth_params@ =~= after_call_params(b0, CallSiteView { arg_to_param: a1, ..call_site_view(*site) }, summary.must_auth_params@));
                            }
                            j = j + 1;
                        }
                        assert(site.arg_to_param@.take(site.arg_to_param@.len() as int) =~= site.arg_to_param@);
                        assert((CallSiteView { arg_to_param: site.arg_to_param@, ..call_site_view(*site) }) == call_site_view(*site));
                        if summary.must_auth_current_admin {
                            state.current_admin_unauth = false;
                        }
                        proof {
                            assert(summary_views(self.fn_summaries@).dom().contains(site.callee_def_id));
                            assert(summary_views(self.fn_summaries@)[site.callee_def_id] == (summary.must_auth_params@, summary.must_auth_current_admin));
                            assert(b0 == old(state).unauth_params@);
                            assert(state.unauth_params@ == after_call_params(old(state).unauth_params@, call_site_view(*site), summary_views(self.fn_summaries@)[site.callee_def_id].0));
                            assert(state.current_admin_unauth == (old(state).current_admin_unauth && !summary_views(self.fn_summaries@)[site.callee_def_id].1));
                        }
                    },
                    None => {
                        assert(!summary_views(self.fn_summaries@).dom().contains(site.callee_def_id));
                    },
                }
                assert(site_of_block(table, block) == Some(call_site_view(*site)));
                return;
            }
            proof {
                assert(table[k as int].0 == self.callsite_by_block@[k as int].0);
            }
            k = k + 1;
        }
    }
}

/// The summary that the exit states give: a parameter is authorized when it is an address
/// parameter that no exit state leaves unauthorized; the current admin when no exit state
/// leaves it unauthorized.
pub open spec fn summary_params_from(address_params: Seq<bool>, exits: Seq<(Seq<bool>, bool)>) -> Seq<bool> {
    Seq::new(address_params.len(), |i: int| address_params[i] && forall|k: int| 0 <= k < exits.len() ==> !(#[trigger] exits[k]).0[i])
}

/// The state's flags, by value.
pub open spec fn domain_view(d: AuthDomain) -> (Seq<bool>, bool) {
    (d.unauth_params@, d.current_admin_unauth)
}

/// The summary of a function from the flow states after the terminators of its exit blocks.
#[verifier::loop_isolation(false)]
pub fn summary_from_exit_states(address_params: &Vec<bool>, exit_states: &Vec<AuthDomain>) -> (r: FnSummary)
    requires
        forall|k: int| 0 <= k < exit_states@.len() ==> (#[trigger] exit_states@[k]).unauth_params@.len() == address_params@.len(),
    ensures
        r.must_auth_params@ == summary_params_from(address_params@, exit_states@.map_values(|d: AuthDomain| domain_view(d))),
        r.must_auth_current_admin == forall|k: int| 0 <= k < exit_states@.len() ==> !(#[trigger] exit_states@[k]).current_admin_unauth,
{
    let ghost ex = exit_states@.map_values(|d: AuthDomain| domain_view(d));
    let ghost n = address_params@.len();
    let mut must: Vec<bool> = Vec::new();
    let mut i: usize = 0;
    while i < address_params.len()
        invariant
            i <= n,
            must@ == address_params@.subrange(0, i as int),
        decreases n - i,
    {
        must.push(address_params[i]);
        assert(must@ =~= address_params@.subrange(0, i + 1));
        i = i + 1;
    }
    let mut admin = true;
    let mut k: usize = 0;
    while k < exit_states.len()
        invariant
            k <= exit_states@.len(),
            must@.len() == n,
            forall|p: int| 0 <= p < n ==> #[trigger] must@[p] == (address_params@[p]
                && forall|k2: int| 0 <= k2 < k ==> !(#[trigger] exit_states@[k2]).unauth_params@[p]),
            admin == forall|k2: int| 0 <= k2 < k ==> !(#[trigger] exit_states@[k2]).current_admin_unauth,
        decreases exit_states@.len() - k,
    {
        let st = &exit_states[k];
        let mut p: usize = 0;
        while p < st.unauth_params.len()
            invariant
                p <= n,
                st.unauth_params@.len() == n,
                must@.len() == n,
                forall|q: int| 0 <= q < n ==> #[trigger] must@[q] == (address_params@[q]
                    && (forall|k2: int| 0 <= k2 < k ==> !(#[trigger] exit_states@[k2]).unauth_params@[q])
                    && (q < p ==> !st.unauth_params@[q])),
            decreases n - p,
        {
            if st.unauth_params[p] {
                must.set(p, false);
            }
            p = p + 1;
        }
        proof {
            assert forall|q: int| 0 <= q < n implies #[trigger] must@[q] == (address_params@[q]
                && forall|k2: int| 0 <= k2 < k + 1 ==> !(#[trigger] exit_states@[k2]).unauth_params@[q]) by {
                if !(forall|k2: int| 0 <= k2 < k + 1 ==> !(#[trigger] exit_states@[k2]).unauth_params@[q]) {
                    let k2 = choose|k2: int| 0 <= k2 < k + 1 && (#[trigger] exit_states@[k2]).unauth_params@[q];
                    if k2 == k {
                        assert(st.unauth_params@[q]);
                    }
                }
            }
        }
        if st.current_admin_unauth {
            admin = false;
        }
        k = k + 1;
    }
    proof {
        assert(must@ =~= summary_params_from(address_params@, ex)) by {
            assert forall|p: int| 0 <= p < n implies #[trigger] must@[p] == summary_params_from(address_params@, ex)[p] by {
                assert((forall|k2: int| 0 <= k2 < exit_states@.len() ==> !(#[trigger] exit_states@[k2]).unauth_params@[p])
                    == (forall|k2: int| 0 <= k2 < ex.len() ==> !(#[trigger] ex[k2]).0[p])) by {
                    if forall|k2: int| 0 <= k2 < exit_states@.len() ==> !(#[trigger] exit_states@[k2]).unauth_params@[p] {
                        assert forall|k2: int| 0 <= k2 < ex.len() implies !(#[trigger] ex[k2]).0[p] by {
                            assert(ex[k2] == domain_view(exit_states@[k2]));
                        }
                    }
                    if forall|k2: int| 0 <= k2 < ex.len() ==> !(#[trigger] ex[k2]).0[p] {
                        assert forall|k2: int| 0 <= k2 < exit_states@.len() implies !(#[trigger] exit_states@[k2]).unauth_params@[p] by {
                            assert(ex[k2] == domain_view(exit_states@[k2]));
                        }
                    }
                }
            }
        }
    }
    FnSummary { must_auth_params: must, must_auth_current_admin: admin }
}

/// The spans of the sinks that the state before them leaves unguarded: a sink of a parameter
/// that may be unauthorized there, or any sink where the current admin may be.
pub open spec fn unguarded_sinks(sinks: Seq<Sink>, state: (Seq<bool>, bool)) -> Seq<Span> {
    sinks.filter_map(|s: Sink| match s.param_index {
        Some(p) => if state.0[p as int] || state.1 { Some(s.span) } else { None },
        None => None,
    })
}

/// The spans to report among the sinks at one location, given the flow state before it.
#[verifier::loop_isolation(false)]
pub fn sinks_to_report(sinks_here: &[Sink], state: &AuthDomain) -> (r: Vec<Span>)
    requires
        forall|k: int| 0 <= k < sinks_here@.len() ==> ((#[trigger] sinks_here@[k]).param_index matches Some(p) ==> p < state.unauth_params@.len()),
    ensures
        r@ == unguarded_sinks(sinks_here@, domain_view(*state)),
{
    let ghost f = |s: Sink| match s.param_index {
        Some(p) => if state.unauth_params@[p as int] || state.current_admin_unauth { Some(s.span) } else { None },
        None => None,
    };
    let mut r: Vec<Span> = Vec::new();
    let mut k: usize = 0;
    while k < sinks_here.len()
        invariant
            k <= sinks_here@.len(),
            r@ == sinks_here@.take(k as int).filter_map(f),
        decreases sinks_here@.len() - k,
    {
        proof {
            sinks_here@.lemma_filter_map_take_succ(f, k as int);
        }
        let s = sinks_here[k];
        let mut report = false;
        if let Some(p) = s.param_index {
            if state.unauth_params[p] || state.current_admin_unauth {
                report = true;
            }
        }
        if report {
            r.push(s.span);
            assert(r@ =~= sinks_here@.take(k as int).filter_map(f) + seq![s.span]);
        } else {
            assert(r@ =~= sinks_here@.take(k as int).filter_map(f) + Seq::<Span>::empty());
        }
        k = k + 1;
    }
    assert(sinks_here@.take(sinks_here@.len() as int) =~= sinks_here@);
    r
}

/// The summaries at the start of the fixpoint: every reachable function with known
/// parameters guarantees nothing.
#[verifier::loop_isolation(false)]
pub fn init_fn_summaries(reachable: &Vec<u64>, params: &HashMap<u64, Vec<ParamInfo>>) -> (r: HashMap<u64, FnSummary>)
    ensures
        forall|f: u64| #[trigger] r@.dom().contains(f) <==> (reachable@.contains(f) && params@.dom().contains(f)),
        forall|f: u64| #[trigger] r@.dom().contains(f) ==> {
            &&& r@[f].must_auth_params@.len() == params@[f]@.len()
            &&& (forall|i: int| 0 <= i < r@[f].must_auth_params@.len() ==> !#[trigger] r@[f].must_auth_params@[i])
            &&& !r@[f].must_auth_current_admin
        },
{
    let mut r: HashMap<u64, FnSummary> = HashMap::new();
    let mut k: usize = 0;
    while k < reachable.len()
        invariant
            k <= reachable@.len(),
            forall|f: u64| #[trigger] r@.dom().contains(f) <==> (reachable@.take(k as int).contains(f) && params@.dom().contains(f)),
            forall|f: u64| #[trigger] r@.dom().contains(f) ==> {
                &&& r@[f].must_auth_params@.len() == params@[f]@.len()
                &&& (forall|i: int| 0 <= i < r@[f].must_auth_params@.len() ==> !#[trigger] r@[f].must_auth_params@[i])
                &&& !r@[f].must_auth_current_admin
            },
        decreases reachable@.len() - k,
    {
        let f = reachable[k];
        if let Some(ps) = params.get(&f) {
            r.insert(f, FnSummary::empty(ps.len()));
        }
        proof {
            let t1 = reachable@.take(k + 1);
            let t0 = reachable@.take(k as int);
            assert(t1[k as int] == f);
            assert forall|g: u64| #[trigger] r@.dom().contains(g) <==> (t1.contains(g) && params@.dom().contains(g)) by {
                if t1.contains(g) && g != f {
                    let w = choose|w: int| 0 <= w < t1.len() && #[trigger] t1[w] == g;
                    assert(t0[w] == g);
                }
                if t0.contains(g) {
                    let w = choose|w: int| 0 <= w < t0.len() && #[trigger] t0[w] == g;
                    assert(t1[w] == g);
                }
            }
        }
        k = k + 1;
    }
    assert(reachable@.take(reachable@.len() as int) =~= reachable@);
    r
}

/// The summary's flags, by value.
pub open spec fn summary_view(s: FnSummary) -> (Seq<bool>, bool) {
    (s.must_auth_params@, s.must_auth_current_admin)
}

fn same_summary(a: &FnSummary, b: &FnSummary) -> (r: bool)
    ensures
        r == (summary_view(*a) == summary_view(*b)),
{
    if a.must_auth_current_admin != b.must_auth_current_admin || a.must_auth_params.len() != b.must_auth_params.len() {
        return false;
    }
    let mut i: usize = 0;
    while i < a.must_auth_params.len()
        invariant
            i <= a.must_auth_params@.len(),
            a.must_auth_params@.len() == b.must_auth_params@.len(),
            forall|k: int| 0 <= k < i ==> a.must_auth_params@[k] == b.must_auth_params@[k],
        decreases a.must_auth_params@.len() - i,
    {
        if a.must_auth_params[i] != b.must_auth_params[i] {
            return false;
        }
        i = i + 1;
    }
    assert(a.must_auth_params@ =~= b.must_auth_params@);
    true
}

/// One step of the summary fixpoint: the new summary of `def_id` replaces the old one when it
/// differs; says whether it did.
pub fn record_summary(summaries: &mut HashMap<u64, FnSummary>, def_id: u64, new_summary: FnSummary) -> (changed: bool)
    ensures
        changed == !(old(summaries)@.dom().contains(def_id) && summary_view(old(summaries)@[def_id]) == summary_view(new_summary)),
        changed ==> final(summaries)@ == old(summaries)@.insert(def_id, new_summary),
        !changed ==> final(summaries)@ == old(summaries)@,
{
    let same = match summaries.get(&def_id) {
        Some(old_summary) => same_summary(old_summary, &new_summary),
        None => false,
    };
    if !same {
        summaries.insert(def_id, new_summary);
        true
    } else {
        false
    }
}


/// The summary of a function, from its parameters and the flow states after the terminators
/// of its exit blocks, as the dataflow analysis computed them: an address parameter is
/// guaranteed when no exit state leaves it unauthorized, the current admin when no exit state
/// does.
pub fn compute_summary_for_fn(params: &[ParamInfo], exit_states: &Vec<AuthDomain>) -> (r: FnSummary)
    requires
        forall|k: int| 0 <= k < exit_states@.len() ==> (#[trigger] exit_states@[k]).unauth_params@.len() == params@.len(),
    ensures
        r.must_auth_params@ == summary_params_from(
            params@.map_values(|p: ParamInfo| p.is_address),
            exit_states@.map_values(|d: AuthDomain| domain_view(d)),
        ),
        r.must_auth_current_admin == forall|k: int| 0 <= k < exit_states@.len() ==> !(#[trigger] exit_states@[k]).current_admin_unauth,
{
    let address_params = address_param_set(params);
    summary_from_exit_states(&address_params, exit_states)
}

/// The spans of the unguarded sinks of each group, in order.
pub open spec fn unguarded_groups(groups: Seq<(Vec<Sink>, AuthDomain)>) -> Seq<Span> {
    groups.map_values(|g: (Vec<Sink>, AuthDomain)| unguarded_sinks(g.0@, domain_view(g.1))).flatten()
}

/// The spans to report in a function: for each location that holds sinks, the sinks there
/// with the flow state before the location, as the dataflow analysis computed it.
#[verifier::loop_isolation(false)]
pub fn lint_sinks_for_fn(groups: &Vec<(Vec<Sink>, AuthDomain)>) -> (r: Vec<Span>)
    requires
        forall|g: int, k: int| 0 <= g < groups@.len() && 0 <= k < groups@[g].0@.len() ==> ((#[trigger] groups@[g].0@[k]).param_index matches Some(p)
            ==> p < groups@[g].1.unauth_params@.len()),
    ensures
        r@ == unguarded_groups(groups@),
{
    let ghost f = |g: (Vec<Sink>, AuthDomain)| unguarded_sinks(g.0@, domain_view(g.1));
    let mut r: Vec<Span> = Vec::new();
    let mut k: usize = 0;
    while k < groups.len()
        invariant
            k <= groups@.len(),
            r@ == groups@.take(k as int).map_values(f).flatten(),
        decreases groups@.len() - k,
    {
        let part = sinks_to_report(groups[k].0.as_slice(), &groups[k].1);
        proof {
            assert(groups@.take(k + 1).map_values(f) =~= groups@.take(k as int).map_values(f) + seq![part@]);
            vstd::seq_lib::lemma_flatten_concat(groups@.take(k as int).map_values(f), seq![part@]);
            seq![part@].lemma_flatten_one_element();
        }
        let mut j: usize = 0;
        let ghost r0 = r@;
        while j < part.len()
            invariant
                j <= part@.len(),
                r@ == r0 + part@.take(j as int),
            decreases part@.len() - j,
        {
            r.push(part[j]);
            assert(r@ =~= r0 + part@.take(j + 1));
            j = j + 1;
        }
        assert(part@.take(part@.len() as int) =~= part@);
        k = k + 1;
    }
    assert(groups@.take(groups@.len() as int) =~= groups@);
    r
}


/// The fixpoint over the summaries of the functions an entry point reaches, run one function
/// at a time: the pass computes, by the dataflow analysis, the summary of the function that
/// [`SummaryFixpoint::next_function`] names under the current summaries, and records it; a
/// round over all the functions that changes no summary ends the fixpoint.
pub struct SummaryFixpoint {
    pub functions: Vec<u64>,
    pub summaries: HashMap<u64, FnSummary>,
    /// The position of the next function in the current round; the length of `functions`
    /// once the fixpoint is reached.
    pub pos: usize,
    /// Whether the current round has changed a summary.
    pub changed: bool,
}

/// Recording `summary` for `f` changes the summaries.
pub open spec fn summary_changes(summaries: Map<u64, FnSummary>, f: u64, summary: FnSummary) -> bool {
    !(summaries.dom().contains(f) && summary_view(summaries[f]) == summary_view(summary))
}

impl SummaryFixpoint {
    /// A fixpoint over `functions`, from the summaries `summaries`, at the start of its first
    /// round.
    pub fn new(functions: Vec<u64>, summaries: HashMap<u64, FnSummary>) -> (r: Self)
        ensures
            r.functions@ == functions@,
            r.summaries@ == summaries@,
            r.pos == 0,
            !r.changed,
    {
        SummaryFixpoint { functions, summaries, pos: 0, changed: false }
    }

    /// The function whose summary is to be computed next, or none once the fixpoint is
    /// reached.
    pub fn next_function(&self) -> (r: Option<u64>)
        ensures
            r == if self.pos < self.functions@.len() { Some(self.functions@[self.pos as int]) } else { None::<u64> },
    {
        if self.pos < self.functions.len() {
            Some(self.functions[self.pos])
        } else {
            None
        }
    }

    /// Records the summary computed for the current function: it replaces the old one when
    /// it differs. At the end of a round, a round that changed a summary starts another one;
    /// one that did not reaches the fixpoint.
    pub fn record(&mut self, summary: FnSummary)
        requires
            old(self).pos < old(self).functions@.len(),
        ensures
            ({
                let f = old(self).functions@[old(self).pos as int];
                let c = summary_changes(old(self).summaries@, f, summary);
                let changed = old(self).changed || c;
                &&& final(self).functions@ == old(self).functions@
                &&& final(self).summaries@ == (if c { old(self).summaries@.insert(f, summary) } else { old(self).summaries@ })
                &&& if old(self).pos + 1 < old(self).functions@.len() {
                    final(self).pos == old(self).pos + 1 && final(self).changed == changed
                } else if changed {
                    final(self).pos == 0 && !final(self).changed
                } else {
                    final(self).pos == old(self).functions@.len() && !final(self).changed
                }
            }),
    {
        let f = self.functions[self.pos];
        let c = record_summary(&mut self.summaries, f, summary);
        let changed = self.changed || c;
        if self.pos < self.functions.len() - 1 {
            self.pos = self.pos + 1;
            self.changed = changed;
        } else if changed {
            self.pos = 0;
            self.changed = false;
        } else {
            self.pos = self.functions.len();
            self.changed = false;
        }
    }
}


/// A round of the fixpoint over the functions `fs`, from the summaries `s`, where `step(f, m)`
/// is the summary that the dataflow analysis computes for `f` under the summaries `m`: each
/// function in turn records its summary, computed under the summaries as they stand, as
/// [`SummaryFixpoint::record`] does. The summaries after the round, and whether the round
/// changed one.
pub open spec fn fixpoint_round(
    fs: Seq<u64>,
    s: Map<u64, FnSummary>,
    step: spec_fn(u64, Map<u64, FnSummary>) -> FnSummary,
) -> (Map<u64, FnSummary>, bool)
    decreases fs.len(),
{
    if fs.len() == 0 {
        (s, false)
    } else {
        let prev = fixpoint_round(fs.drop_last(), s, step);
        let f = fs.last();
        let x = step(f, prev.0);
        if summary_changes(prev.0, f, x) { (prev.0.insert(f, x), true) } else { prev }
    }
}

/// The fixpoint ends at a fixpoint: when a round changes no summary, the summaries are those
/// it started from, and the summary of every function of the round equals the summary the
/// analysis computes for it under them; so the summaries handed to the sink check are a
/// fixpoint of the analysis.
pub proof fn law_quiet_round_is_fixpoint(
    fs: Seq<u64>,
    s: Map<u64, FnSummary>,
    step: spec_fn(u64, Map<u64, FnSummary>) -> FnSummary,
)
    requires
        !fixpoint_round(fs, s, step).1,
    ensures
        fixpoint_round(fs, s, step).0 == s,
        forall|i: int| 0 <= i < fs.len() ==> {
            &&& s.dom().contains(#[trigger] fs[i])
            &&& summary_view(s[fs[i]]) == summary_view(step(fs[i], s))
        },
    decreases fs.len(),
{
    if fs.len() > 0 {
        let prev = fixpoint_round(fs.drop_last(), s, step);
        let f = fs.last();
        assert(!summary_changes(prev.0, f, step(f, prev.0)));
        law_quiet_round_is_fixpoint(fs.drop_last(), s, step);
        assert forall|i: int| 0 <= i < fs.len() implies {
            &&& s.dom().contains(#[trigger] fs[i])
            &&& summary_view(s[fs[i]]) == summary_view(step(fs[i], s))
        } by {
            if i < fs.len() - 1 {
                assert(fs.drop_last()[i] == fs[i]);
            }
        }
    }
}


/// The constant last assigned, whole, to `place` among `stmts`: its bits when it evaluates to
/// an integer; none when the place has a projection or the last whole assignment to its local
/// is of anything else.
pub open spec fn spec_const_bits_from_place(stmts: Seq<Statement>, place: Place) -> Option<u128> {
    if place.projection != 0 {
        None
    } else {
        match last_assigned(stmts, place.local) {
            Some(Some(bits)) => bits,
            _ => None,
        }
    }
}

/// What the last whole assignment to `local` among `stmts` assigns: for a constant, its
/// bits, if any; for anything else, nothing.
pub open spec fn last_assigned(stmts: Seq<Statement>, local: u32) -> Option<Option<Option<u128>>>
    decreases stmts.len(),
{
    if stmts.len() == 0 {
        None
    } else {
        match stmts.last().kind {
            StatementKind::Assign(lhs, rv) => if lhs.local == local && lhs.projection == 0 {
                Some(match rv {
                    Rvalue::Use(Operand::Constant(_, bits)) => Some(bits),
                    _ => None,
                })
            } else {
                last_assigned(stmts.drop_last(), local)
            },
            _ => last_assigned(stmts.drop_last(), local),
        }
    }
}

/// The target a switch takes for `bits`: the first target whose value it is, else the last
/// target.
pub open spec fn spec_target_for_value(values: Seq<u128>, targets: Seq<usize>, bits: u128) -> usize {
    if exists|i: int| 0 <= i < values.len() && values[i] == bits {
        targets[choose|i: int| 0 <= i < values.len() && values[i] == bits && forall|j: int| 0 <= j < i ==> values[j] != bits]
    } else {
        targets.last()
    }
}

/// The successors the analysis follows out of a block: one target, or every edge of the
/// terminator.
#[derive(Debug, Clone, Copy, PartialEq, Eq, Structural)]
pub enum TerminatorEdges {
    Single(usize),
    All,
}

/// The target a switch on `discr` in `block` is known to take: when the discriminant is a
/// constant integer, or a local that the block last assigned a constant integer, the target
/// for that value.
pub open spec fn spec_const_switch_target(stmts: Seq<Statement>, discr: Operand, values: Seq<u128>, targets: Seq<usize>) -> Option<usize> {
    let bits = match discr {
        Operand::Constant(_, b) => b,
        Operand::Copy(p) | Operand::Move(p) => spec_const_bits_from_place(stmts, p),
    };
    match bits {
        Some(b) => Some(spec_target_for_value(values, targets, b)),
        None => None,
    }
}

/// A switch is well formed: one target per value and one for any other value.
pub open spec fn switch_well_formed(values: Seq<u128>, targets: Seq<usize>) -> bool {
    targets.len() == values.len() + 1
}

impl AuthFlowAnalysis {
    /// The constant last assigned, whole, to `place` in block `block` of `body`, as
    /// [`spec_const_bits_from_place`] states.
    #[verifier::loop_isolation(false)]
    pub fn const_bits_from_place(&self, body: &Vec<BasicBlockData>, block: usize, place: Place) -> (r: Option<u128>)
        requires
            block < body@.len(),
        ensures
            r == spec_const_bits_from_place(body@[block as int].statements@, place),
    {
        if place.projection != 0 {
            return None;
        }
        let stmts = &body[block].statements;
        let mut last: Option<Option<Option<u128>>> = None;
        let mut i: usize = 0;
        while i < stmts.len()
            invariant
                i <= stmts@.len(),
                place.projection == 0,
                last == last_assigned(stmts@.take(i as int), place.local),
            decreases stmts@.len() - i,
        {
            assert(stmts@.take(i + 1).drop_last() =~= stmts@.take(i as int));
            if let StatementKind::Assign(lhs, rv) = stmts[i].kind {
                if lhs.local == place.local && lhs.projection == 0 {
                    last = Some(match rv {
                        Rvalue::Use(Operand::Constant(_, bits)) => Some(bits),
                        _ => None,
                    });
                }
            }
            i = i + 1;
        }
        assert(stmts@.take(stmts@.len() as int) =~= stmts@);
        match last {
            Some(Some(bits)) => bits,
            _ => None,
        }
    }

    /// The target a switch in block `block` is known to take, as
    /// [`spec_const_switch_target`] states.
    #[verifier::loop_isolation(false)]
    pub fn const_switch_target(&self, body: &Vec<BasicBlockData>, block: usize, discr: Operand, values: &Vec<u128>, targets: &Vec<usize>) -> (r: Option<usize>)
        requires
            block < body@.len(),
            switch_well_formed(values@, targets@),
        ensures
            r == spec_const_switch_target(body@[block as int].statements@, discr, values@, targets@),
    {
        let bits = match discr {
            Operand::Constant(_, b) => b,
            Operand::Copy(p) | Operand::Move(p) => self.const_bits_from_place(body, block, p),
        };
        let b = match bits {
            Some(b) => b,
            None => return None,
        };
        let mut i: usize = 0;
        while i < values.len()
            invariant
                i <= values@.len(),
                forall|j: int| 0 <= j < i ==> values@[j] != b,
            decreases values@.len() - i,
        {
            if values[i] == b {
                proof {
                    let c = choose|c: int| 0 <= c < values@.len() && values@[c] == b && forall|j: int| 0 <= j < c ==> values@[j] != b;
                    if c < i {
                        assert(values@[c] != b);
                    } else if c > i {
                        assert(values@[i as int] != b);
                    }
                }
                return Some(targets[i]);
            }
            i = i + 1;
        }
        Some(targets[targets.len() - 1])
    }

    /// The effect of a block's terminator at `loc`: the authorizations there, then the
    /// successors to follow; a switch known to take one target follows that target alone.
    pub fn apply_primary_terminator_effect(&self, state: &mut AuthDomain, body: &Vec<BasicBlockData>, term: &Terminator, loc: Location) -> (r: TerminatorEdges)
        requires
            loc.block < body@.len(),
            forall|k: int| 0 <= k < self.auth_events_by_loc@.len() && #[trigger] self.auth_events_by_loc@[k].0 == loc
                ==> (self.auth_events_by_loc@[k].1.param_index matches Some(p) ==> p < old(state).unauth_params@.len()),
            term.kind matches TerminatorKind::SwitchInt { values, targets, .. } ==> switch_well_formed(values@, targets@),
        ensures
            final(state).unauth_params@ == cleared_params(old(state).unauth_params@, self.auth_events_by_loc@, loc),
            final(state).current_admin_unauth == (old(state).current_admin_unauth && !admin_authed_at(self.auth_events_by_loc@, loc)),
            r == match term.kind {
                TerminatorKind::SwitchInt { discr, values, targets } => match spec_const_switch_target(body@[loc.block as int].statements@, discr, values@, targets@) {
                    Some(t) => TerminatorEdges::Single(t),
                    None => TerminatorEdges::All,
                },
                _ => TerminatorEdges::All,
            },
    {
        self.apply_auth_events(state, loc);
        if let TerminatorKind::SwitchInt { discr, values, targets } = &term.kind {
            if let Some(target) = self.const_switch_target(body, loc.block, *discr, values, targets) {
                return TerminatorEdges::Single(target);
            }
        }
        TerminatorEdges::All
    }

    /// The effect of a statement at `loc`: the authorizations there.
    pub fn apply_primary_statement_effect(&self, state: &mut AuthDomain, loc: Location)
        requires
            forall|k: int| 0 <= k < self.auth_events_by_loc@.len() && #[trigger] self.auth_events_by_loc@[k].0 == loc
                ==> (self.auth_events_by_loc@[k].1.param_index matches Some(p) ==> p < old(state).unauth_params@.len()),
        ensures
            final(state).unauth_params@ == cleared_params(old(state).unauth_params@, self.auth_events_by_loc@, loc),
            final(state).current_admin_unauth == (old(state).current_admin_unauth && !admin_authed_at(self.auth_events_by_loc@, loc)),
    {
        self.apply_auth_events(state, loc);
    }
}

} // verus!
