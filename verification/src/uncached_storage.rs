//! Re-reads of modified storage values: a local read from storage that is modified and not
//! written back before the same key is read again.
use vstd::prelude::*;
use std::collections::HashMap;
use vstd::multiset::Multiset;
use crate::hir::{Expr, ExprKind, Stmt, Span, spec_get_expr_hir_id_opt, get_expr_hir_id_opt};
use crate::text::str_eq;

verus! {

broadcast use vstd::std_specs::hash::group_hash_axioms;

/// The lint pass; it keeps nothing between functions.
pub struct UncachedStorageModification;

/// Whether a local read from storage is as read, or was modified (and where).
#[derive(Debug, Clone, Copy, PartialEq, Eq, Structural)]
pub enum CopyState {
    Clean,
    Modified(Span),
}

/// What the walk reads of a node: whether its type, references peeled, is a storage handle,
/// and, for a method call, whether the method takes its receiver by mutable reference.
#[derive(Debug, Clone, Copy, PartialEq, Eq, Structural)]
pub struct StorageFacts {
    pub is_storage: bool,
    pub takes_mut_self: bool,
}

/// The facts of `e`; nothing is known of a node the table does not list.
pub open spec fn storage_facts(facts: Map<u64, StorageFacts>, e: Expr) -> StorageFacts {
    if facts.dom().contains(e.hir_id) { facts[e.hir_id] } else { StorageFacts { is_storage: false, takes_mut_self: false } }
}

/// The identifier under any borrows of `e`.
pub open spec fn spec_local_var_id(e: Expr) -> Option<u64>
    decreases e,
{
    match e.kind {
        ExprKind::AddrOf(_, x) => spec_local_var_id(*x),
        _ => spec_get_expr_hir_id_opt(e),
    }
}

/// The arguments of the storage read under `e`: unwrapping is passed through to a `get`.
pub open spec fn spec_storage_get_args(e: Expr) -> Option<Seq<Expr>>
    decreases e,
{
    match e.kind {
        ExprKind::MethodCall { method, receiver, args, .. } => if method@ == "get"@ {
            Some(args@)
        } else if method@ == "unwrap"@ || method@ == "unwrap_or"@ || method@ == "expect"@ {
            spec_storage_get_args(*receiver)
        } else {
            None
        },
        _ => None,
    }
}

/// What the walk has gathered: the state of each tracked local, the key each was read
/// under, and, for each storage read of a local key in walk order, the stale reads it found
/// (the read's span and the modification's; those of one read in no particular order).
pub struct UScan {
    pub dirty: Map<u64, CopyState>,
    pub keys: Map<u64, u64>,
    pub lints: Seq<Multiset<(Span, Span)>>,
}

/// The reports `r` are those of the reads `reads`, read after read, in order; the reports of
/// one read in any order.
pub open spec fn reports_in_order(r: Seq<(Span, Span)>, reads: Seq<Multiset<(Span, Span)>>) -> bool
    decreases reads.len(),
{
    if reads.len() == 0 {
        r.len() == 0
    } else {
        let n = reads.last().len() as int;
        &&& n <= r.len()
        &&& r.subrange(r.len() - n, r.len() as int).to_multiset() == reads.last()
        &&& reports_in_order(r.subrange(0, r.len() - n), reads.drop_last())
    }
}

/// A tracked local is marked modified at `span`.
pub open spec fn mark_modified(s: UScan, id: Option<u64>, span: Span) -> UScan {
    match id {
        Some(h) => if s.dirty.contains_key(h) {
            UScan { dirty: s.dirty.insert(h, CopyState::Modified(span)), ..s }
        } else {
            s
        },
        None => s,
    }
}

/// A mutable borrow of a tracked local, passed as an argument, modifies it.
pub open spec fn arg_mut_borrow(s: UScan, arg: Expr, span: Span) -> UScan {
    match arg.kind {
        ExprKind::AddrOf(mutable, x) => if mutable { mark_modified(s, spec_get_expr_hir_id_opt(*x), span) } else { s },
        _ => s,
    }
}

/// The arguments, in order, checked for mutable borrows.
pub open spec fn args_mut_borrow(s: UScan, args: Seq<Expr>, span: Span) -> UScan
    decreases args.len(),
{
    if args.len() == 0 {
        s
    } else {
        arg_mut_borrow(args_mut_borrow(s, args.subrange(0, args.len() - 1), span), args[args.len() - 1], span)
    }
}

/// The local `v` was read under `key`.
pub open spec fn read_under(keys: Map<u64, u64>, v: u64, key: u64) -> bool {
    keys.contains_key(v) && keys[v] == key
}

/// Writing `key` back cleans every local read under it.
pub open spec fn clean_for_key(dirty: Map<u64, CopyState>, keys: Map<u64, u64>, key: u64) -> Map<u64, CopyState> {
    Map::new(
        |v: u64| dirty.contains_key(v) || read_under(keys, v, key),
        |v: u64| if read_under(keys, v, key) { CopyState::Clean } else { dirty[v] },
    )
}

/// The stale read that the local `v`, in state `st`, gives for a read of `key` at `span`.
pub open spec fn stale_entry(keys: Map<u64, u64>, key: u64, span: Span, v: u64, st: CopyState) -> Multiset<(Span, Span)> {
    match st {
        CopyState::Modified(m) => if read_under(keys, v, key) { Multiset::singleton((span, m)) } else { Multiset::empty() },
        CopyState::Clean => Multiset::empty(),
    }
}

/// The stale reads of `key` at `span`: one for each tracked local read under `key` and
/// modified since, with the span of its modification.
pub open spec fn stale_reads(dirty: Map<u64, CopyState>, keys: Map<u64, u64>, key: u64, span: Span) -> Multiset<(Span, Span)>
    decreases dirty.dom().len(),
    when dirty.dom().finite()
{
    if dirty.dom().len() == 0 {
        Multiset::empty()
    } else {
        let v = dirty.dom().choose();
        stale_reads(dirty.remove(v), keys, key, span).add(stale_entry(keys, key, span, v, dirty[v]))
    }
}

/// The local `k` is tracked and modified.
pub open spec fn is_modified_in(m: Map<u64, CopyState>, k: u64) -> bool {
    m.contains_key(k) && m[k] is Modified
}

/// The union of modifications of two branches: what either modified is modified, with the
/// first branch's modification when both did; anything else keeps its state from the first.
pub open spec fn merge_states(s1: Map<u64, CopyState>, s2: Map<u64, CopyState>) -> Map<u64, CopyState> {
    Map::new(
        |k: u64| s1.contains_key(k) || is_modified_in(s2, k),
        |k: u64| if is_modified_in(s1, k) { s1[k] } else if is_modified_in(s2, k) { s2[k] } else { s1[k] },
    )
}

/// What a method call `expr` does: a storage `get` of a local key reports the stale reads of
/// that key, a storage `set` of a local key writes it back; then a method taking its receiver
/// by mutable reference modifies it, and so does each mutable borrow among the arguments.
pub open spec fn method_call_effect(facts: Map<u64, StorageFacts>, s: UScan, expr: Expr, method: Seq<char>, receiver: Expr, args: Seq<Expr>, call_span: Span) -> UScan {
    let is_storage = storage_facts(facts, receiver).is_storage;
    let s1 = if is_storage && method == "get"@ {
        if args.len() > 0 {
            match spec_local_var_id(args[0]) {
                Some(key) => UScan { lints: s.lints.push(stale_reads(s.dirty, s.keys, key, call_span)), ..s },
                None => s,
            }
        } else {
            s
        }
    } else if is_storage && method == "set"@ {
        if args.len() > 0 {
            match spec_local_var_id(args[0]) {
                Some(key) => UScan { dirty: clean_for_key(s.dirty, s.keys, key), ..s },
                None => s,
            }
        } else {
            s
        }
    } else {
        s
    };
    let s2 = if storage_facts(facts, expr).takes_mut_self {
        mark_modified(s1, spec_get_expr_hir_id_opt(receiver), expr.span)
    } else {
        s1
    };
    args_mut_borrow(s2, args, expr.span)
}

/// What `let pat = init` records: a binding initialized by a storage read of a local key is
/// tracked, clean, under that key.
pub open spec fn local_effect(s: UScan, pat: u64, binding: Option<String>, init: Option<Expr>) -> UScan {
    match init {
        Some(i) => match spec_storage_get_args(i) {
            Some(args) => if args.len() > 0 {
                match spec_local_var_id(args[0]) {
                    Some(key) => if binding is Some {
                        UScan { dirty: s.dirty.insert(pat, CopyState::Clean), keys: s.keys.insert(pat, key), ..s }
                    } else {
                        s
                    },
                    None => s,
                }
            } else {
                s
            },
            None => s,
        },
        None => s,
    }
}

/// Visiting `e`: an `if` is visited branch by branch and the branches' states merged;
/// anything else has its own effect, then its parts visited.
pub open spec fn u_visit(facts: Map<u64, StorageFacts>, e: Expr, s: UScan) -> UScan
    decreases e, 1nat,
{
    match e.kind {
        ExprKind::If { cond, then, els } => {
            let s1 = u_visit(facts, *cond, s);
            let s2 = u_visit(facts, *then, s1);
            let s3 = UScan { dirty: s1.dirty, ..s2 };
            let s4 = match els {
                Some(x) => u_visit(facts, *x, s3),
                None => s3,
            };
            UScan { dirty: merge_states(s2.dirty, s4.dirty), ..s4 }
        },
        ExprKind::MethodCall { method, receiver, args, call_span } =>
            u_walk(facts, e, method_call_effect(facts, s, e, method@, *receiver, args@, call_span)),
        ExprKind::Assign(l, _) => u_walk(facts, e, mark_modified(s, spec_get_expr_hir_id_opt(*l), e.span)),
        ExprKind::AssignOp(_, l, _) => u_walk(facts, e, mark_modified(s, spec_get_expr_hir_id_opt(*l), e.span)),
        ExprKind::Call { args, .. } => u_walk(facts, e, args_mut_borrow(s, args@, e.span)),
        _ => u_walk(facts, e, s),
    }
}

/// Visiting the parts of `e` in the order of the compiler's walk.
pub open spec fn u_walk(facts: Map<u64, StorageFacts>, e: Expr, s: UScan) -> UScan
    decreases e, 0nat,
{
    match e.kind {
        ExprKind::Lit(_) => s,
        ExprKind::Path(_) => s,
        ExprKind::Binary(_, l, r) => u_visit(facts, *r, u_visit(facts, *l, s)),
        ExprKind::AssignOp(_, l, r) => u_visit(facts, *l, u_visit(facts, *r, s)),
        ExprKind::Assign(l, r) => u_visit(facts, *l, u_visit(facts, *r, s)),
        ExprKind::Unary(_, x) => u_visit(facts, *x, s),
        ExprKind::AddrOf(_, x) => u_visit(facts, *x, s),
        ExprKind::DropTemps(x) => u_visit(facts, *x, s),
        ExprKind::Cast(x, _) => u_visit(facts, *x, s),
        ExprKind::MethodCall { receiver, args, .. } => u_seq(facts, args@, u_visit(facts, *receiver, s)),
        ExprKind::Call { callee, args } => u_seq(facts, args@, u_visit(facts, *callee, s)),
        ExprKind::Block { stmts, tail } => {
            let s1 = u_stmts(facts, stmts@, s);
            match tail {
                Some(t) => u_visit(facts, *t, s1),
                None => s1,
            }
        },
        ExprKind::If { cond, then, els } => {
            let s1 = u_visit(facts, *then, u_visit(facts, *cond, s));
            match els {
                Some(x) => u_visit(facts, *x, s1),
                None => s1,
            }
        },
        ExprKind::Let { init, .. } => u_visit(facts, *init, s),
        ExprKind::Closure(_) => s,
        ExprKind::Other(cs) => u_seq(facts, cs@, s),
    }
}

/// Visiting a sequence of expressions in order.
pub open spec fn u_seq(facts: Map<u64, StorageFacts>, es: Seq<Expr>, s: UScan) -> UScan
    decreases es, 0nat,
{
    if es.len() == 0 {
        s
    } else {
        u_visit(facts, es[es.len() - 1], u_seq(facts, es.subrange(0, es.len() - 1), s))
    }
}

/// Visiting a block's statements in order; a `let` is visited as a local.
pub open spec fn u_stmts(facts: Map<u64, StorageFacts>, ss: Seq<Stmt>, s: UScan) -> UScan
    decreases ss, 0nat,
{
    if ss.len() == 0 {
        s
    } else {
        let s0 = u_stmts(facts, ss.subrange(0, ss.len() - 1), s);
        match ss[ss.len() - 1] {
            Stmt::Let { pat_hir_id, binding, init } => {
                let s1 = local_effect(s0, pat_hir_id, binding, init);
                match init {
                    Some(i) => u_visit(facts, i, s1),
                    None => s1,
                }
            },
            Stmt::Expr(x) => u_visit(facts, x, s0),
            Stmt::Item => s0,
        }
    }
}

/// The walk over a function body that tracks locals read from storage.
pub struct StateVisitor {
    pub facts: HashMap<u64, StorageFacts>,
    pub dirty_state: HashMap<u64, CopyState>,
    pub key_map: HashMap<u64, u64>,
    pub lints: Vec<(Span, Span)>,
    /// The stale reads of each storage read so far, in order.
    pub read_reports: Ghost<Seq<Multiset<(Span, Span)>>>,
}
/// The identifier under any borrows of `e`.
pub fn get_local_var_id(e: &Expr) -> (r: Option<u64>)
    ensures
        r == spec_local_var_id(*e),
    decreases *e,
{
    match &e.kind {
        ExprKind::AddrOf(_, x) => get_local_var_id(x),
        _ => get_expr_hir_id_opt(e),
    }
}

/// The arguments of the storage read under `e`, unwrapping passed through.
pub fn find_storage_get_args(e: &Expr) -> (r: Option<&Vec<Expr>>)
    ensures
        r matches Some(a) ==> spec_storage_get_args(*e) == Some(a@),
        r is None ==> spec_storage_get_args(*e) is None,
    decreases *e,
{
    proof {
        reveal_strlit("get");
        reveal_strlit("unwrap");
        reveal_strlit("unwrap_or");
        reveal_strlit("expect");
    }
    match &e.kind {
        ExprKind::MethodCall { method, receiver, args, .. } => {
            if str_eq(method.as_str(), "get") {
                Some(args)
            } else if str_eq(method.as_str(), "unwrap") || str_eq(method.as_str(), "unwrap_or") || str_eq(method.as_str(), "expect") {
                find_storage_get_args(receiver)
            } else {
                None
            }
        },
        _ => None,
    }
}

/// The stale reads of a map with one more local are those of the map and that local's.
proof fn lemma_stale_reads_remove(dirty: Map<u64, CopyState>, keys: Map<u64, u64>, key: u64, span: Span, k: u64)
    requires
        dirty.dom().finite(),
        dirty.contains_key(k),
    ensures
        stale_reads(dirty, keys, key, span) == stale_reads(dirty.remove(k), keys, key, span).add(stale_entry(keys, key, span, k, dirty[k])),
    decreases dirty.dom().len(),
{
    let c = dirty.dom().choose();
    assert(dirty.dom().contains(c));
    if c != k {
        let dc = dirty.remove(c);
        let dk = dirty.remove(k);
        assert(dc.dom() =~= dirty.dom().remove(c));
        assert(dk.dom() =~= dirty.dom().remove(k));
        lemma_stale_reads_remove(dc, keys, key, span, k);
        lemma_stale_reads_remove(dk, keys, key, span, c);
        assert(dc.remove(k) =~= dk.remove(c));
        let base = stale_reads(dc.remove(k), keys, key, span);
        let ek = stale_entry(keys, key, span, k, dirty[k]);
        let ec = stale_entry(keys, key, span, c, dirty[c]);
        assert(base.add(ek).add(ec) =~= base.add(ec).add(ek));
    }
}

/// The stale reads of no tracked local are none.
proof fn lemma_stale_reads_empty(dirty: Map<u64, CopyState>, keys: Map<u64, u64>, key: u64, span: Span)
    requires
        dirty.dom().finite(),
        dirty.dom().len() == 0,
    ensures
        stale_reads(dirty, keys, key, span) == Multiset::<(Span, Span)>::empty(),
{
}

/// The union of modifications of two branches.
#[verifier::loop_isolation(false)]
pub fn merge_state_maps(s1: HashMap<u64, CopyState>, s2: &HashMap<u64, CopyState>) -> (r: HashMap<u64, CopyState>)
    ensures
        r@ == merge_states(s1@, s2@),
{
    let ghost m1 = s1@;
    let ghost m2 = s2@;
    let ghost mut done: Set<u64> = Set::empty();
    let mut result = s1;
    for p in it: s2.iter()
        invariant
            m2 == s2@,
            it.seq().len() == m2.dom().len(),
            forall|i: int| 0 <= i < it.seq().len() ==> m2.contains_key(*it.seq()[i].0) && m2[*it.seq()[i].0] == *it.seq()[i].1,
            forall|k: u64| #[trigger] m2.contains_key(k) ==> it.seq().contains((&k, &m2[k])),
            it.seq().no_duplicates(),
            forall|k: u64| #[trigger] done.contains(k) <==> exists|i: int| 0 <= i < it.index() && *it.seq()[i].0 == k,
            it.index() == it.seq().len() ==> forall|k: u64| #[trigger] m2.contains_key(k) ==> done.contains(k),
            result@ == merge_states(m1, m2.restrict(done)),
    {
        let (key, v2) = p;
        let ghost idx = it.index();
        proof {
            assert(*it.seq()[idx].0 == *key);
            if done.contains(*key) {
                let i = choose|i: int| 0 <= i < idx && *it.seq()[i].0 == *key;
                assert(it.seq()[i] == it.seq()[idx]);
            }
        }
        let already_modified = match result.get(key) {
            Some(CopyState::Modified(_)) => true,
            _ => false,
        };
        if !already_modified {
            if let CopyState::Modified(sp) = v2 {
                result.insert(*key, CopyState::Modified(*sp));
            }
        }
        let ghost prev = done;
        proof {
            done = done.insert(*key);
        }
        proof {
            let nd = done;
            assert(m2.restrict(nd) =~= m2.restrict(prev).insert(*key, *v2));
            assert(result@ =~= merge_states(m1, m2.restrict(nd)));
            assert forall|k: u64| #[trigger] done.contains(k) <==> exists|i: int| 0 <= i < idx + 1 && *it.seq()[i].0 == k by {
                if k == *key {
                    assert(*it.seq()[idx].0 == k);
                }
            }
            assert forall|k: u64| idx + 1 == it.seq().len() && #[trigger] m2.contains_key(k) implies done.contains(k) by {
                let i = choose|i: int| 0 <= i < it.seq().len() && it.seq()[i] == (&k, &m2[k]);
                assert(*it.seq()[i].0 == k);
            }
        }
    }
    proof {
        assert(m2.restrict(done) =~= m2);
    }
    result
}

impl StateVisitor {
    /// What the walk has gathered.
    pub open spec fn state(&self) -> UScan {
        UScan { dirty: self.dirty_state@, keys: self.key_map@, lints: self.read_reports@ }
    }

    /// The reports gathered are those of the reads, in order.
    pub open spec fn wf(&self) -> bool {
        reports_in_order(self.lints@, self.read_reports@)
    }

    /// A walk that reads the facts of `facts`, with nothing tracked.
    pub fn new(facts: HashMap<u64, StorageFacts>) -> (r: StateVisitor)
        ensures
            r.facts@ == facts@,
            r.state() == (UScan { dirty: Map::empty(), keys: Map::empty(), lints: Seq::empty() }),
            r.wf(),
    {
        StateVisitor { facts, dirty_state: HashMap::new(), key_map: HashMap::new(), lints: Vec::new(), read_reports: Ghost(Seq::empty()) }
    }

    fn node_facts(&self, e: &Expr) -> (r: StorageFacts)
        ensures
            r == storage_facts(self.facts@, *e),
    {
        match self.facts.get(&e.hir_id) {
            Some(f) => *f,
            None => StorageFacts { is_storage: false, takes_mut_self: false },
        }
    }

    /// Whether the type of `e`, references peeled, is a storage handle.
    pub fn is_soroban_storage_type(&self, e: &Expr) -> (r: bool)
        ensures
            r == storage_facts(self.facts@, *e).is_storage,
    {
        self.node_facts(e).is_storage
    }

    fn mark(&mut self, id: Option<u64>, span: Span)
        ensures
            old(self).wf() ==> final(self).wf(),
            final(self).facts == old(self).facts,
            final(self).state() == mark_modified(old(self).state(), id, span),
    {
        if let Some(h) = id {
            if self.dirty_state.contains_key(&h) {
                self.dirty_state.insert(h, CopyState::Modified(span));
            }
        }
    }

    /// A mutable borrow of a tracked local passed as an argument modifies it at `span`.
    pub fn check_arg_is_mut_borrow(&mut self, arg: &Expr, span: Span)
        ensures
            old(self).wf() ==> final(self).wf(),
            final(self).facts == old(self).facts,
            final(self).state() == arg_mut_borrow(old(self).state(), *arg, span),
    {
        if let ExprKind::AddrOf(mutable, x) = &arg.kind {
            if *mutable {
                self.mark(get_expr_hir_id_opt(x), span);
            }
        }
    }

    #[verifier::loop_isolation(false)]
    fn check_args(&mut self, args: &Vec<Expr>, span: Span)
        ensures
            old(self).wf() ==> final(self).wf(),
            final(self).facts == old(self).facts,
            final(self).state() == args_mut_borrow(old(self).state(), args@, span),
    {
        let ghost s0 = self.state();
        let mut k: usize = 0;
        while k < args.len()
            invariant
                k <= args@.len(),
                self.facts == old(self).facts,
                self.state() == args_mut_borrow(s0, args@.subrange(0, k as int), span),
                old(self).wf() ==> self.wf(),
            decreases args@.len() - k,
        {
            proof {
                let p = args@.subrange(0, k + 1);
                assert(p.subrange(0, p.len() - 1) =~= args@.subrange(0, k as int));
            }
            self.check_arg_is_mut_borrow(&args[k], span);
            k = k + 1;
        }
        assert(args@.subrange(0, args@.len() as int) =~= args@);
    }

    /// A method call that takes its receiver by mutable reference modifies a tracked
    /// receiver at `span`.
    pub fn check_method_receiver_mutation(&mut self, expr: &Expr, receiver: &Expr, span: Span)
        ensures
            old(self).wf() ==> final(self).wf(),
            final(self).facts == old(self).facts,
            final(self).state() == (if storage_facts(old(self).facts@, *expr).takes_mut_self {
                mark_modified(old(self).state(), spec_get_expr_hir_id_opt(*receiver), span)
            } else {
                old(self).state()
            }),
    {
        if self.node_facts(expr).takes_mut_self {
            self.mark(get_expr_hir_id_opt(receiver), span);
        }
    }

    /// Tracks the binding `pat`, clean, under `key_id`.
    pub fn process_pat(&mut self, pat_hir_id: u64, binding: &Option<String>, key_id: u64)
        ensures
            old(self).wf() ==> final(self).wf(),
            final(self).facts == old(self).facts,
            final(self).state() == (if binding is Some {
                UScan {
                    dirty: old(self).state().dirty.insert(pat_hir_id, CopyState::Clean),
                    keys: old(self).state().keys.insert(pat_hir_id, key_id),
                    ..old(self).state()
                }
            } else {
                old(self).state()
            }),
    {
        if binding.is_some() {
            self.dirty_state.insert(pat_hir_id, CopyState::Clean);
            self.key_map.insert(pat_hir_id, key_id);
        }
    }

    /// Writing `key_id` back cleans every local read under it.
    #[verifier::loop_isolation(false)]
    pub fn clean_vars_for_key(&mut self, key_id: u64)
        ensures
            old(self).wf() ==> final(self).wf(),
            final(self).facts == old(self).facts,
            final(self).state() == (UScan { dirty: clean_for_key(old(self).state().dirty, old(self).state().keys, key_id), ..old(self).state() }),
    {
        let ghost d0 = self.dirty_state@;
        let ghost km = self.key_map@;
        let ghost mut done: Set<u64> = Set::empty();
        for p in it: self.key_map.iter()
            invariant
                km == self.key_map@,
                self.lints@ == old(self).lints@,
                self.read_reports == old(self).read_reports,
                self.facts == old(self).facts,
                it.seq().len() == km.dom().len(),
                forall|i: int| 0 <= i < it.seq().len() ==> km.contains_key(*it.seq()[i].0) && km[*it.seq()[i].0] == *it.seq()[i].1,
                forall|k: u64| #[trigger] km.contains_key(k) ==> it.seq().contains((&k, &km[k])),
                forall|k: u64| #[trigger] done.contains(k) <==> exists|i: int| 0 <= i < it.index() && *it.seq()[i].0 == k,
                it.index() == it.seq().len() ==> forall|k: u64| #[trigger] km.contains_key(k) ==> done.contains(k),
                self.dirty_state@ == clean_for_key(d0, km.restrict(done), key_id),
        {
            let (var_id, mapped) = p;
            let ghost idx = it.index();
            if *mapped == key_id {
                self.dirty_state.insert(*var_id, CopyState::Clean);
            }
            let ghost prev = done;
            proof {
                done = done.insert(*var_id);
            }
            proof {
                assert(*it.seq()[idx].0 == *var_id);
                assert(km[*var_id] == *mapped);
                let nd = done;
                assert(km.restrict(nd) =~= km.restrict(prev).insert(*var_id, *mapped));
                assert(self.dirty_state@ =~= clean_for_key(d0, km.restrict(nd), key_id));
                assert forall|k: u64| #[trigger] done.contains(k) <==> exists|i: int| 0 <= i < idx + 1 && *it.seq()[i].0 == k by {
                    if k == *var_id {
                        assert(*it.seq()[idx].0 == k);
                    }
                }
                assert forall|k: u64| idx + 1 == it.seq().len() && #[trigger] km.contains_key(k) implies done.contains(k) by {
                    let i = choose|i: int| 0 <= i < it.seq().len() && it.seq()[i] == (&k, &km[k]);
                    assert(*it.seq()[i].0 == k);
                }
            }
        }
        proof {
            assert(km.restrict(done) =~= km);
        }
    }

    fn key_of(&self, var_id: u64) -> (r: Option<u64>)
        ensures
            r == (if self.key_map@.contains_key(var_id) { Some(self.key_map@[var_id]) } else { None::<u64> }),
    {
        match self.key_map.get(&var_id) {
            Some(k) => Some(*k),
            None => None,
        }
    }

    #[verifier::loop_isolation(false)]
    fn report_stale_reads(&mut self, key_id: u64, span: Span)
        ensures
            old(self).wf() ==> final(self).wf(),
            final(self).facts == old(self).facts,
            final(self).state() == (UScan { lints: old(self).state().lints.push(stale_reads(old(self).state().dirty, old(self).state().keys, key_id, span)), ..old(self).state() }),
    {
        broadcast use vstd::seq_lib::group_to_multiset_ensures;
        let ghost dm = self.dirty_state@;
        let ghost km = self.key_map@;
        let ghost s0 = self.lints@;
        let ghost mut done: Set<u64> = Set::empty();
        proof {
            assert(dm.restrict(done).dom() =~= Set::<u64>::empty());
            lemma_stale_reads_empty(dm.restrict(done), km, key_id, span);
            assert(self.lints@.subrange(s0.len() as int, self.lints@.len() as int).to_multiset() =~= Multiset::<(Span, Span)>::empty());
        }
        for p in it: self.dirty_state.iter()
            invariant
                dm == self.dirty_state@,
                km == self.key_map@,
                self.facts == old(self).facts,
                self.read_reports == old(self).read_reports,
                dm.dom().finite(),
                it.seq().len() == dm.dom().len(),
                forall|i: int| 0 <= i < it.seq().len() ==> dm.contains_key(*it.seq()[i].0) && dm[*it.seq()[i].0] == *it.seq()[i].1,
                forall|k: u64| #[trigger] dm.contains_key(k) ==> it.seq().contains((&k, &dm[k])),
                it.seq().no_duplicates(),
                forall|k: u64| #[trigger] done.contains(k) <==> exists|i: int| 0 <= i < it.index() && *it.seq()[i].0 == k,
                it.index() == it.seq().len() ==> forall|k: u64| #[trigger] dm.contains_key(k) ==> done.contains(k),
                done.finite(),
                s0.len() <= self.lints@.len(),
                self.lints@.subrange(0, s0.len() as int) == s0,
                self.lints@.subrange(s0.len() as int, self.lints@.len() as int).to_multiset() == stale_reads(dm.restrict(done), km, key_id, span),
        {
            let (var_id, st) = p;
            let ghost idx = it.index();
            let ghost before = self.lints@;
            proof {
                assert(*it.seq()[idx].0 == *var_id);
                if done.contains(*var_id) {
                    let i = choose|i: int| 0 <= i < idx && *it.seq()[i].0 == *var_id;
                    assert(it.seq()[i] == it.seq()[idx]);
                }
            }
            if let CopyState::Modified(m) = st {
                if self.key_of(*var_id) == Some(key_id) {
                    self.lints.push((span, *m));
                }
            }
            let ghost prev = done;
            proof {
                done = done.insert(*var_id);
            }
            proof {
                let nd = done;
                let old_r = dm.restrict(prev);
                let new_r = dm.restrict(nd);
                assert(new_r.dom() =~= dm.dom().intersect(nd));
                assert(old_r.dom() =~= dm.dom().intersect(prev));
                assert(new_r.remove(*var_id) =~= old_r);
                lemma_stale_reads_remove(new_r, km, key_id, span, *var_id);
                let suffix0 = before.subrange(s0.len() as int, before.len() as int);
                match *st {
                    CopyState::Modified(m) => {
                        if read_under(km, *var_id, key_id) {
                            assert(self.lints@ == before.push((span, m)));
                            assert(self.lints@.subrange(s0.len() as int, self.lints@.len() as int) =~= suffix0.push((span, m)));
                        } else {
                            assert(self.lints@ == before);
                        }
                    },
                    CopyState::Clean => {
                        assert(self.lints@ == before);
                    },
                }
                assert(self.lints@.subrange(0, s0.len() as int) =~= s0);
                assert(self.lints@.subrange(s0.len() as int, self.lints@.len() as int).to_multiset() =~= stale_reads(new_r, km, key_id, span));
                assert forall|k: u64| #[trigger] done.contains(k) <==> exists|i: int| 0 <= i < idx + 1 && *it.seq()[i].0 == k by {
                    if k == *var_id {
                        assert(*it.seq()[idx].0 == k);
                    }
                }
                assert forall|k: u64| idx + 1 == it.seq().len() && #[trigger] dm.contains_key(k) implies done.contains(k) by {
                    let i = choose|i: int| 0 <= i < it.seq().len() && it.seq()[i] == (&k, &dm[k]);
                    assert(*it.seq()[i].0 == k);
                }
            }
        }
        let ghost chunk = stale_reads(dm, km, key_id, span);
        proof {
            assert(dm.restrict(done) =~= dm);
            let r = self.lints@;
            let suffix = r.subrange(s0.len() as int, r.len() as int);
            assert(suffix.to_multiset() == chunk);
            assert(suffix.to_multiset().len() == suffix.len());
            let reads = self.read_reports@.push(chunk);
            assert(reads.drop_last() =~= self.read_reports@);
            assert(reads.last() == chunk);
            assert(r.subrange(r.len() - chunk.len() as int, r.len() as int) =~= suffix);
            assert(r.subrange(0, r.len() - chunk.len() as int) =~= s0);
        }
        self.read_reports = Ghost(self.read_reports@.push(chunk));
    }

    fn method_call(&mut self, expr: &Expr, method: &String, receiver: &Expr, args: &Vec<Expr>, call_span: Span)
        ensures
            old(self).wf() ==> final(self).wf(),
            final(self).facts == old(self).facts,
            final(self).state() == method_call_effect(old(self).facts@, old(self).state(), *expr, method@, *receiver, args@, call_span),
    {
        proof {
            reveal_strlit("get");
            reveal_strlit("set");
        }
        let is_storage_call = self.is_soroban_storage_type(receiver);
        if is_storage_call && str_eq(method.as_str(), "get") {
            if args.len() > 0 {
                if let Some(key_id) = get_local_var_id(&args[0]) {
                    self.report_stale_reads(key_id, call_span);
                }
            }
        } else if is_storage_call && str_eq(method.as_str(), "set") {
            if args.len() > 0 {
                if let Some(key_id) = get_local_var_id(&args[0]) {
                    self.clean_vars_for_key(key_id);
                }
            }
        }
        self.check_method_receiver_mutation(expr, receiver, expr.span);
        self.check_args(args, expr.span);
    }

    /// What `let pat = init` records, before the initializer is visited.
    pub fn visit_local(&mut self, pat_hir_id: u64, binding: &Option<String>, init: &Option<Expr>)
        ensures
            old(self).wf() ==> final(self).wf(),
            final(self).facts == old(self).facts,
            final(self).state() == local_effect(old(self).state(), pat_hir_id, *binding, *init),
    {
        if let Some(i) = init {
            if let Some(args) = find_storage_get_args(i) {
                if args.len() > 0 {
                    if let Some(key_id) = get_local_var_id(&args[0]) {
                        self.process_pat(pat_hir_id, binding, key_id);
                    }
                }
            }
        }
    }

    /// Visits `e`, as [`u_visit`] states.
    pub fn visit_expr(&mut self, e: &Expr)
        ensures
            old(self).wf() ==> final(self).wf(),
            final(self).facts == old(self).facts,
            final(self).state() == u_visit(old(self).facts@, *e, old(self).state()),
        decreases *e, 1nat,
    {
        match &e.kind {
            ExprKind::If { cond, then, els } => {
                self.visit_expr(cond);
                let pre_state = self.dirty_state.clone();
                self.visit_expr(then);
                let state_then = self.dirty_state.clone();
                self.dirty_state = pre_state.clone();
                let state_else = match els {
                    Some(x) => {
                        self.visit_expr(x);
                        self.dirty_state.clone()
                    },
                    None => pre_state,
                };
                self.dirty_state = merge_state_maps(state_then, &state_else);
                return;
            },
            ExprKind::MethodCall { method, receiver, args, call_span } => {
                self.method_call(e, method, receiver, args, *call_span);
            },
            ExprKind::Assign(l, _) => {
                self.mark(get_expr_hir_id_opt(l), e.span);
            },
            ExprKind::AssignOp(_, l, _) => {
                self.mark(get_expr_hir_id_opt(l), e.span);
            },
            ExprKind::Call { args, .. } => {
                self.check_args(args, e.span);
            },
            _ => {},
        }
        self.walk_expr(e);
    }

    fn walk_expr(&mut self, e: &Expr)
        ensures
            old(self).wf() ==> final(self).wf(),
            final(self).facts == old(self).facts,
            final(self).state() == u_walk(old(self).facts@, *e, old(self).state()),
        decreases *e, 0nat,
    {
        match &e.kind {
            ExprKind::Lit(_) => {},
            ExprKind::Path(_) => {},
            ExprKind::Binary(_, l, r) => {
                self.visit_expr(l);
                self.visit_expr(r);
            },
            ExprKind::AssignOp(_, l, r) => {
                self.visit_expr(r);
                self.visit_expr(l);
            },
            ExprKind::Assign(l, r) => {
                self.visit_expr(r);
                self.visit_expr(l);
            },
            ExprKind::Unary(_, x) => self.visit_expr(x),
            ExprKind::AddrOf(_, x) => self.visit_expr(x),
            ExprKind::DropTemps(x) => self.visit_expr(x),
            ExprKind::Cast(x, _) => self.visit_expr(x),
            ExprKind::MethodCall { receiver, args, .. } => {
                self.visit_expr(receiver);
                self.visit_exprs(args);
            },
            ExprKind::Call { callee, args } => {
                self.visit_expr(callee);
                self.visit_exprs(args);
            },
            ExprKind::Block { stmts, tail } => {
                self.visit_stmts(stmts);
                if let Some(t) = tail {
                    self.visit_expr(t);
                }
            },
            ExprKind::If { cond, then, els } => {
                self.visit_expr(cond);
                self.visit_expr(then);
                if let Some(x) = els {
                    self.visit_expr(x);
                }
            },
            ExprKind::Let { init, .. } => self.visit_expr(init),
            ExprKind::Closure(_) => {},
            ExprKind::Other(cs) => self.visit_exprs(cs),
        }
    }

    #[verifier::loop_isolation(false)]
    fn visit_exprs(&mut self, es: &Vec<Expr>)
        ensures
            old(self).wf() ==> final(self).wf(),
            final(self).facts == old(self).facts,
            final(self).state() == u_seq(old(self).facts@, es@, old(self).state()),
        decreases *es, 0nat,
    {
        let ghost f = self.facts@;
        let ghost s0 = self.state();
        let mut i: usize = 0;
        while i < es.len()
            invariant
                i <= es@.len(),
                self.facts == old(self).facts,
                self.state() == u_seq(f, es@.subrange(0, i as int), s0),
                old(self).wf() ==> self.wf(),
            decreases es@.len() - i,
        {
            proof {
                assert(decreases_to!(*es => es@));
                assert(decreases_to!(es@ => es@[i as int]));
                let p = es@.subrange(0, i + 1);
                assert(p.subrange(0, p.len() - 1) =~= es@.subrange(0, i as int));
            }
            self.visit_expr(&es[i]);
            i = i + 1;
        }
        assert(es@.subrange(0, es@.len() as int) =~= es@);
    }

    #[verifier::loop_isolation(false)]
    fn visit_stmts(&mut self, stmts: &Vec<Stmt>)
        ensures
            old(self).wf() ==> final(self).wf(),
            final(self).facts == old(self).facts,
            final(self).state() == u_stmts(old(self).facts@, stmts@, old(self).state()),
        decreases *stmts, 0nat,
    {
        let ghost f = self.facts@;
        let ghost s0 = self.state();
        let mut i: usize = 0;
        while i < stmts.len()
            invariant
                i <= stmts@.len(),
                self.facts == old(self).facts,
                self.state() == u_stmts(f, stmts@.subrange(0, i as int), s0),
                old(self).wf() ==> self.wf(),
            decreases stmts@.len() - i,
        {
            proof {
                let p = stmts@.subrange(0, i + 1);
                assert(p.subrange(0, p.len() - 1) =~= stmts@.subrange(0, i as int));
                assert(p[p.len() - 1] == stmts@[i as int]);
                assert(decreases_to!(*stmts => stmts@));
                assert(decreases_to!(stmts@ => stmts@[i as int]));
            }
            match &stmts[i] {
                Stmt::Let { pat_hir_id, binding, init } => {
                    self.visit_local(*pat_hir_id, binding, init);
                    if let Some(x) = init {
                        proof {
                            assert(decreases_to!(stmts@[i as int] => stmts@[i as int]->Let_init));
                        }
                        self.visit_expr(x);
                    }
                },
                Stmt::Expr(x) => {
                    self.visit_expr(x);
                },
                Stmt::Item => {},
            }
            i = i + 1;
        }
        assert(stmts@.subrange(0, stmts@.len() as int) =~= stmts@);
    }
}

impl UncachedStorageModification {
    /// The stale reads of a function body, a walk with nothing tracked at the start: read after
    /// read in walk order, those of one read in any order.
    pub fn check_fn(&self, body: &Expr, facts: HashMap<u64, StorageFacts>) -> (r: Vec<(Span, Span)>)
        ensures
            reports_in_order(r@, u_visit(facts@, *body, UScan { dirty: Map::empty(), keys: Map::empty(), lints: Seq::empty() }).lints),
    {
        let mut visitor = StateVisitor::new(facts);
        visitor.visit_expr(body);
        visitor.lints
    }
}


/// Merging the states of two branches is a union of modifications: a copy is modified after
/// the merge exactly when one of the branches modified it; a modification of the first branch
/// is kept as it was, and a copy the second branch did not modify keeps its state from the
/// first.
pub proof fn law_merge_union(s1: Map<u64, CopyState>, s2: Map<u64, CopyState>, k: u64)
    ensures
        is_modified_in(merge_states(s1, s2), k) == (is_modified_in(s1, k) || is_modified_in(s2, k)),
        is_modified_in(s1, k) ==> merge_states(s1, s2)[k] == s1[k],
        !is_modified_in(s2, k) ==> (merge_states(s1, s2).contains_key(k) == s1.contains_key(k)
            && (s1.contains_key(k) ==> merge_states(s1, s2)[k] == s1[k])),
{
}

} // verus!
