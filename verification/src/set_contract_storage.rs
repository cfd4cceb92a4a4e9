//! Storage writes keyed by an address without authorization: a function that sets storage
//! under an address key and never calls `require_auth`, reported when it is an entrypoint or
//! an entrypoint that does not authorize calls it.
use vstd::prelude::*;
use std::collections::{HashMap, HashSet};
use crate::hir::{Expr, ExprKind, Stmt, Span};
use crate::admin_auth::{NodeFacts, node_facts};
use vstd::multiset::Multiset;
use crate::text::str_eq;

verus! {

broadcast use vstd::std_specs::hash::group_hash_axioms;

/// What the walk has found: whether an address was authorized, and the storage writes keyed
/// by an address before that.
pub struct WarnState {
    pub auth_found: bool,
    pub storage_spans: Seq<Span>,
}

/// What a method call records: `require_auth` on an address is an authorization; `set` on
/// storage with an address as first argument is a storage write.
pub open spec fn warn_effect(facts: Map<u64, NodeFacts>, e: Expr, s: WarnState) -> WarnState {
    match e.kind {
        ExprKind::MethodCall { method, receiver, args, .. } => {
            let rf = node_facts(facts, *receiver);
            let s1 = if rf.is_address && method@ == "require_auth"@ { WarnState { auth_found: true, ..s } } else { s };
            if rf.is_storage && method@ == "set"@ && args@.len() > 0 && node_facts(facts, args@[0]).is_address {
                WarnState { storage_spans: s1.storage_spans.push(e.span), ..s1 }
            } else {
                s1
            }
        },
        _ => s,
    }
}

/// Visiting `e`: nothing once an authorization was found; else its effect, then its parts.
pub open spec fn warn_visit(facts: Map<u64, NodeFacts>, e: Expr, s: WarnState) -> WarnState
    decreases e, 1nat,
{
    if s.auth_found { s } else { warn_walk(facts, e, warn_effect(facts, e, s)) }
}

/// Visiting the parts of `e` in the order of the compiler's walk.
pub open spec fn warn_walk(facts: Map<u64, NodeFacts>, e: Expr, s: WarnState) -> WarnState
    decreases e, 0nat,
{
    match e.kind {
        ExprKind::Lit(_) => s,
        ExprKind::Path(_) => s,
        ExprKind::Binary(_, l, r) => warn_visit(facts, *r, warn_visit(facts, *l, s)),
        ExprKind::AssignOp(_, l, r) => warn_visit(facts, *l, warn_visit(facts, *r, s)),
        ExprKind::Assign(l, r) => warn_visit(facts, *l, warn_visit(facts, *r, s)),
        ExprKind::Unary(_, x) => warn_visit(facts, *x, s),
        ExprKind::AddrOf(_, x) => warn_visit(facts, *x, s),
        ExprKind::DropTemps(x) => warn_visit(facts, *x, s),
        ExprKind::Cast(x, _) => warn_visit(facts, *x, s),
        ExprKind::MethodCall { receiver, args, .. } => warn_seq(facts, args@, warn_visit(facts, *receiver, s)),
        ExprKind::Call { callee, args } => warn_seq(facts, args@, warn_visit(facts, *callee, s)),
        ExprKind::Block { stmts, tail } => {
            let s1 = warn_stmts(facts, stmts@, s);
            match tail {
                Some(t) => warn_visit(facts, *t, s1),
                None => s1,
            }
        },
        ExprKind::If { cond, then, els } => {
            let s1 = warn_visit(facts, *then, warn_visit(facts, *cond, s));
            match els {
                Some(x) => warn_visit(facts, *x, s1),
                None => s1,
            }
        },
        ExprKind::Let { init, .. } => warn_visit(facts, *init, s),
        ExprKind::Closure(_) => s,
        ExprKind::Other(cs) => warn_seq(facts, cs@, s),
    }
}

/// Visiting a sequence of expressions in order.
pub open spec fn warn_seq(facts: Map<u64, NodeFacts>, es: Seq<Expr>, s: WarnState) -> WarnState
    decreases es, 0nat,
{
    if es.len() == 0 {
        s
    } else {
        warn_visit(facts, es[es.len() - 1], warn_seq(facts, es.subrange(0, es.len() - 1), s))
    }
}

/// Visiting a block's statements in order.
pub open spec fn warn_stmts(facts: Map<u64, NodeFacts>, ss: Seq<Stmt>, s: WarnState) -> WarnState
    decreases ss, 0nat,
{
    if ss.len() == 0 {
        s
    } else {
        let s0 = warn_stmts(facts, ss.subrange(0, ss.len() - 1), s);
        match ss[ss.len() - 1] {
            Stmt::Let { init, .. } => match init {
                Some(i) => warn_visit(facts, i, s0),
                None => s0,
            },
            Stmt::Expr(x) => warn_visit(facts, x, s0),
            Stmt::Item => s0,
        }
    }
}

/// The walk over a function body that looks for authorizations and storage writes.
pub struct SetStorageWarnVisitor {
    pub facts: HashMap<u64, NodeFacts>,
    pub auth_found: bool,
    pub storage_spans: Vec<Span>,
}

impl SetStorageWarnVisitor {
    /// What the walk has found.
    pub open spec fn state(&self) -> WarnState {
        WarnState { auth_found: self.auth_found, storage_spans: self.storage_spans@ }
    }

    fn facts_of(&self, e: &Expr) -> (r: NodeFacts)
        ensures
            r == node_facts(self.facts@, *e),
    {
        match self.facts.get(&e.hir_id) {
            Some(f) => *f,
            None => NodeFacts { is_storage: false, is_address: false, res_def_id: None },
        }
    }

    fn effect(&mut self, e: &Expr)
        ensures
            final(self).facts == old(self).facts,
            final(self).state() == warn_effect(old(self).facts@, *e, old(self).state()),
    {
        proof {
            reveal_strlit("require_auth");
            reveal_strlit("set");
        }
        if let ExprKind::MethodCall { method, receiver, args, .. } = &e.kind {
            let rf = self.facts_of(receiver);
            if rf.is_address && str_eq(method.as_str(), "require_auth") {
                self.auth_found = true;
            }
            if rf.is_storage && str_eq(method.as_str(), "set") && args.len() > 0 && self.facts_of(&args[0]).is_address {
                self.storage_spans.push(e.span);
            }
        }
    }

    /// Visits `e`, as [`warn_visit`] states.
    pub fn visit_expr(&mut self, e: &Expr)
        ensures
            final(self).facts == old(self).facts,
            final(self).state() == warn_visit(old(self).facts@, *e, old(self).state()),
        decreases *e, 1nat,
    {
        if self.auth_found {
            return;
        }
        self.effect(e);
        self.walk_expr(e);
    }

    fn walk_expr(&mut self, e: &Expr)
        ensures
            final(self).facts == old(self).facts,
            final(self).state() == warn_walk(old(self).facts@, *e, old(self).state()),
        decreases *e, 0nat,
    {
        match &e.kind {
            ExprKind::Lit(_) => {},
            ExprKind::Path(_) => {},
            ExprKind::Binary(_, l, r) => {
                self.visit_expr(l);
                self.visit_expr(r);
            },
            ExprKind::AssignOp(_, l, r) => {
                self.visit_expr(r);
                self.visit_expr(l);
            },
            ExprKind::Assign(l, r) => {
                self.visit_expr(r);
                self.visit_expr(l);
            },
            ExprKind::Unary(_, x) => self.visit_expr(x),
            ExprKind::AddrOf(_, x) => self.visit_expr(x),
            ExprKind::DropTemps(x) => self.visit_expr(x),
            ExprKind::Cast(x, _) => self.visit_expr(x),
            ExprKind::MethodCall { receiver, args, .. } => {
                self.visit_expr(receiver);
                self.visit_exprs(args);
            },
            ExprKind::Call { callee, args } => {
                self.visit_expr(callee);
                self.visit_exprs(args);
            },
            ExprKind::Block { stmts, tail } => {
                self.visit_stmts(stmts);
                if let Some(t) = tail {
                    self.visit_expr(t);
                }
            },
            ExprKind::If { cond, then, els } => {
                self.visit_expr(cond);
                self.visit_expr(then);
                if let Some(x) = els {
                    self.visit_expr(x);
                }
            },
            ExprKind::Let { init, .. } => self.visit_expr(init),
            ExprKind::Closure(_) => {},
            ExprKind::Other(cs) => self.visit_exprs(cs),
        }
    }

    #[verifier::loop_isolation(false)]
    fn visit_exprs(&mut self, es: &Vec<Expr>)
        ensures
            final(self).facts == old(self).facts,
            final(self).state() == warn_seq(old(self).facts@, es@, old(self).state()),
        decreases *es, 0nat,
    {
        let ghost f = self.facts@;
        let ghost s0 = self.state();
        let mut i: usize = 0;
        while i < es.len()
            invariant
                i <= es@.len(),
                self.facts == old(self).facts,
                self.state() == warn_seq(f, es@.subrange(0, i as int), s0),
            decreases es@.len() - i,
        {
            proof {
                assert(decreases_to!(*es => es@));
                assert(decreases_to!(es@ => es@[i as int]));
                let p = es@.subrange(0, i + 1);
                assert(p.subrange(0, p.len() - 1) =~= es@.subrange(0, i as int));
            }
            self.visit_expr(&es[i]);
            i = i + 1;
        }
        assert(es@.subrange(0, es@.len() as int) =~= es@);
    }

    #[verifier::loop_isolation(false)]
    fn visit_stmts(&mut self, stmts: &Vec<Stmt>)
        ensures
            final(self).facts == old(self).facts,
            final(self).state() == warn_stmts(old(self).facts@, stmts@, old(self).state()),
        decreases *stmts, 0nat,
    {
        let ghost f = self.facts@;
        let ghost s0 = self.state();
        let mut i: usize = 0;
        while i < stmts.len()
            invariant
                i <= stmts@.len(),
                self.facts == old(self).facts,
                self.state() == warn_stmts(f, stmts@.subrange(0, i as int), s0),
            decreases stmts@.len() - i,
        {
            proof {
                let p = stmts@.subrange(0, i + 1);
                assert(p.subrange(0, p.len() - 1) =~= stmts@.subrange(0, i as int));
                assert(p[p.len() - 1] == stmts@[i as int]);
                assert(decreases_to!(*stmts => stmts@));
                assert(decreases_to!(stmts@ => stmts@[i as int]));
            }
            match &stmts[i] {
                Stmt::Let { init, .. } => {
                    if let Some(x) = init {
                        proof {
                            assert(decreases_to!(stmts@[i as int] => stmts@[i as int]->Let_init));
                        }
                        self.visit_expr(x);
                    }
                },
                Stmt::Expr(x) => {
                    self.visit_expr(x);
                },
                Stmt::Item => {},
            }
            i = i + 1;
        }
        assert(stmts@.subrange(0, stmts@.len() as int) =~= stmts@);
    }
}

/// What the lint gathers over a crate: the functions that authorize, and the storage writes of
/// each function that does not.
pub struct SetContractStorage {
    pub authorized_functions: HashSet<u64>,
    pub unauthorized_storage_calls: HashMap<u64, Vec<Span>>,
}

impl SetContractStorage {
    /// Nothing gathered.
    pub fn new() -> (r: SetContractStorage)
        ensures
            r.authorized_functions@.is_empty(),
            r.unauthorized_storage_calls@ == Map::<u64, Vec<Span>>::empty(),
    {
        SetContractStorage { authorized_functions: HashSet::new(), unauthorized_storage_calls: HashMap::new() }
    }

    /// Gathers the function `def_id`: unless it comes from a macro expansion, a walk over its
    /// body; a function with storage writes and no authorization has its writes recorded, and
    /// one with an authorization is recorded as authorizing.
    pub fn check_fn(&mut self, def_id: u64, from_expansion: bool, body: &Expr, facts: HashMap<u64, NodeFacts>)
        ensures
            ({
                let w = warn_visit(facts@, *body, WarnState { auth_found: false, storage_spans: Seq::empty() });
                if from_expansion || (w.storage_spans.len() == 0 && !w.auth_found) {
                    final(self).authorized_functions@ == old(self).authorized_functions@
                    && final(self).unauthorized_storage_calls@ == old(self).unauthorized_storage_calls@
                } else if !w.auth_found {
                    final(self).authorized_functions@ == old(self).authorized_functions@
                    && exists|v: Vec<Span>| v@ == w.storage_spans
                        && final(self).unauthorized_storage_calls@ == old(self).unauthorized_storage_calls@.insert(def_id, v)
                } else {
                    final(self).authorized_functions@ == old(self).authorized_functions@.insert(def_id)
                    && final(self).unauthorized_storage_calls@ == old(self).unauthorized_storage_calls@
                }
            }),
    {
        if from_expansion {
            return;
        }
        let mut visitor = SetStorageWarnVisitor { facts, auth_found: false, storage_spans: Vec::new() };
        proof {
            assert(visitor.state().storage_spans =~= Seq::<Span>::empty());
        }
        visitor.visit_expr(body);
        if visitor.storage_spans.len() > 0 && !visitor.auth_found {
            let ghost before = self.unauthorized_storage_calls@;
            let ghost spans = visitor.storage_spans;
            self.unauthorized_storage_calls.insert(def_id, visitor.storage_spans);
            proof {
                assert(spans@ == visitor.storage_spans@);
            }
        } else if visitor.auth_found {
            self.authorized_functions.insert(def_id);
        }
    }
}

/// Some entrypoint calls `callee`.
pub open spec fn called_by_entrypoint(graph: Seq<(u64, Vec<u64>)>, entrypoints: Set<u64>, callee: u64) -> bool {
    exists|i: int| 0 <= i < graph.len() && (#[trigger] graph[i]).1@.contains(callee) && entrypoints.contains(graph[i].0)
}

/// Every entrypoint that calls `callee` authorizes.
pub open spec fn entry_callers_authed(graph: Seq<(u64, Vec<u64>)>, entrypoints: Set<u64>, authorized: Set<u64>, callee: u64) -> bool {
    forall|i: int| 0 <= i < graph.len() && (#[trigger] graph[i]).1@.contains(callee) && entrypoints.contains(graph[i].0)
        ==> authorized.contains(graph[i].0)
}

/// The writes of `callee` are reported when it is an entrypoint, or an entrypoint that does
/// not authorize calls it.
pub open spec fn writes_reported(graph: Seq<(u64, Vec<u64>)>, entrypoints: Set<u64>, authorized: Set<u64>, callee: u64) -> bool {
    entrypoints.contains(callee)
        || (called_by_entrypoint(graph, entrypoints, callee) && !entry_callers_authed(graph, entrypoints, authorized, callee))
}

/// The writes of `callee` that are reported.
pub open spec fn writes_of(calls: Map<u64, Vec<Span>>, callee: u64, graph: Seq<(u64, Vec<u64>)>, entrypoints: Set<u64>, authorized: Set<u64>) -> Multiset<Span> {
    if writes_reported(graph, entrypoints, authorized, callee) { calls[callee]@.to_multiset() } else { Multiset::empty() }
}

/// The reported spans: the writes of each recorded function that is reported, in no
/// particular order.
pub open spec fn reported_writes(calls: Map<u64, Vec<Span>>, graph: Seq<(u64, Vec<u64>)>, entrypoints: Set<u64>, authorized: Set<u64>) -> Multiset<Span>
    decreases calls.dom().len(),
    when calls.dom().finite()
{
    if calls.dom().len() == 0 {
        Multiset::empty()
    } else {
        let f = calls.dom().choose();
        reported_writes(calls.remove(f), graph, entrypoints, authorized).add(writes_of(calls, f, graph, entrypoints, authorized))
    }
}

/// The reported spans of a map with one more function are those of the map and that
/// function's.
proof fn lemma_reported_writes_remove(calls: Map<u64, Vec<Span>>, graph: Seq<(u64, Vec<u64>)>, entrypoints: Set<u64>, authorized: Set<u64>, k: u64)
    requires
        calls.dom().finite(),
        calls.contains_key(k),
    ensures
        reported_writes(calls, graph, entrypoints, authorized)
            == reported_writes(calls.remove(k), graph, entrypoints, authorized).add(writes_of(calls, k, graph, entrypoints, authorized)),
    decreases calls.dom().len(),
{
    let c = calls.dom().choose();
    assert(calls.dom().contains(c));
    if c != k {
        let dc = calls.remove(c);
        let dk = calls.remove(k);
        assert(dc.dom() =~= calls.dom().remove(c));
        assert(dk.dom() =~= calls.dom().remove(k));
        lemma_reported_writes_remove(dc, graph, entrypoints, authorized, k);
        lemma_reported_writes_remove(dk, graph, entrypoints, authorized, c);
        assert(dc.remove(k) =~= dk.remove(c));
        assert(writes_of(dc, k, graph, entrypoints, authorized) == writes_of(calls, k, graph, entrypoints, authorized));
        assert(writes_of(dk, c, graph, entrypoints, authorized) == writes_of(calls, c, graph, entrypoints, authorized));
        let base = reported_writes(dc.remove(k), graph, entrypoints, authorized);
        let ek = writes_of(calls, k, graph, entrypoints, authorized);
        let ec = writes_of(calls, c, graph, entrypoints, authorized);
        assert(base.add(ek).add(ec) =~= base.add(ec).add(ek));
    }
}

fn holds_callee(callees: &Vec<u64>, x: u64) -> (r: bool)
    ensures
        r == callees@.contains(x),
{
    let mut i: usize = 0;
    while i < callees.len()
        invariant
            i <= callees@.len(),
            forall|j: int| 0 <= j < i ==> callees@[j] != x,
        decreases callees@.len() - i,
    {
        if callees[i] == x {
            assert(callees@[i as int] == x);
            return true;
        }
        i = i + 1;
    }
    false
}

impl SetContractStorage {
    /// The spans to report over the crate, given the call graph (each function with its
    /// callees) and the entrypoints.
    #[verifier::loop_isolation(false)]
    pub fn check_crate_post(&self, graph: &Vec<(u64, Vec<u64>)>, entrypoints: &HashSet<u64>) -> (r: Vec<Span>)
        ensures
            r@.to_multiset() == reported_writes(self.unauthorized_storage_calls@, graph@, entrypoints@, self.authorized_functions@),
    {
        broadcast use vstd::seq_lib::group_to_multiset_ensures;
        let ghost cm = self.unauthorized_storage_calls@;
        let ghost mut done: Set<u64> = Set::empty();
        let mut r: Vec<Span> = Vec::new();
        proof {
            assert(cm.restrict(done).dom() =~= Set::<u64>::empty());
            assert(r@.to_multiset() =~= Multiset::<Span>::empty());
        }
        for p in it: self.unauthorized_storage_calls.iter()
            invariant
                cm == self.unauthorized_storage_calls@,
                cm.dom().finite(),
                it.seq().len() == cm.dom().len(),
                forall|i: int| 0 <= i < it.seq().len() ==> cm.contains_key(*it.seq()[i].0) && cm[*it.seq()[i].0] == *it.seq()[i].1,
                forall|k: u64| #[trigger] cm.contains_key(k) ==> it.seq().contains((&k, &cm[k])),
                it.seq().no_duplicates(),
                forall|k: u64| #[trigger] done.contains(k) <==> exists|i: int| 0 <= i < it.index() && *it.seq()[i].0 == k,
                it.index() == it.seq().len() ==> forall|k: u64| #[trigger] cm.contains_key(k) ==> done.contains(k),
                done.finite(),
                r@.to_multiset() == reported_writes(cm.restrict(done), graph@, entrypoints@, self.authorized_functions@),
        {
            let (callee_ref, spans) = p;
            let callee = *callee_ref;
            let ghost idx = it.index();
            proof {
                assert(*it.seq()[idx].0 == callee);
                if done.contains(callee) {
                    let i = choose|i: int| 0 <= i < idx && *it.seq()[i].0 == callee;
                    assert(it.seq()[i] == it.seq()[idx]);
                }
            }
            let is_callee_soroban = entrypoints.contains(&callee);
            let mut called = false;
            let mut authed = true;
            let mut i: usize = 0;
            while i < graph.len()
                invariant
                    i <= graph@.len(),
                    called == exists|j: int| 0 <= j < i && (#[trigger] graph@[j]).1@.contains(callee) && entrypoints@.contains(graph@[j].0),
                    authed == forall|j: int| 0 <= j < i && (#[trigger] graph@[j]).1@.contains(callee) && entrypoints@.contains(graph@[j].0)
                        ==> self.authorized_functions@.contains(graph@[j].0),
                decreases graph@.len() - i,
            {
                let caller = graph[i].0;
                if holds_callee(&graph[i].1, callee) {
                    let is_caller_soroban = entrypoints.contains(&caller);
                    called = called || is_caller_soroban;
                    authed = authed && (!is_caller_soroban || self.authorized_functions.contains(&caller));
                }
                proof {
                    assert(graph@[i as int].0 == caller);
                }
                i = i + 1;
            }
            let ghost r0 = r@;
            if is_callee_soroban || (called && !authed) {
                let mut j: usize = 0;
                while j < spans.len()
                    invariant
                        j <= spans@.len(),
                        r@ == r0 + spans@.subrange(0, j as int),
                    decreases spans@.len() - j,
                {
                    r.push(spans[j]);
                    assert(r@ =~= r0 + spans@.subrange(0, j + 1));
                    j = j + 1;
                }
                assert(spans@.subrange(0, spans@.len() as int) =~= spans@);
                proof {
                    vstd::seq_lib::lemma_multiset_commutative(r0, spans@);
                }
            } else {
                assert(r@ == r0);
            }
            let ghost prev = done;
            proof {
                done = done.insert(callee);
            }
            proof {
                let nd = done;
                let old_r = cm.restrict(prev);
                let new_r = cm.restrict(nd);
                assert(new_r.dom() =~= cm.dom().intersect(nd));
                assert(old_r.dom() =~= cm.dom().intersect(prev));
                assert(new_r.remove(callee) =~= old_r);
                lemma_reported_writes_remove(new_r, graph@, entrypoints@, self.authorized_functions@, callee);
                assert(new_r[callee] == *spans);
                assert(r@.to_multiset() =~= reported_writes(new_r, graph@, entrypoints@, self.authorized_functions@));
                assert forall|k: u64| #[trigger] done.contains(k) <==> exists|i: int| 0 <= i < idx + 1 && *it.seq()[i].0 == k by {
                    if k == callee {
                        assert(*it.seq()[idx].0 == k);
                    }
                }
                assert forall|k: u64| idx + 1 == it.seq().len() && #[trigger] cm.contains_key(k) implies done.contains(k) by {
                    let i = choose|i: int| 0 <= i < it.seq().len() && it.seq()[i] == (&k, &cm[k]);
                    assert(*it.seq()[i].0 == k);
                }
            }
        }
        proof {
            assert(cm.restrict(done) =~= cm);
        }
        r
    }
}

} // verus!
