//! Storage collections grown without access control: a `push_back`/`push_front` on a
//! `soroban_sdk::Vec` or a `set` on a `soroban_sdk::Map` in a function that never calls
//! `require_auth` lets anyone grow the storage until operations revert.
use vstd::prelude::*;
use std::collections::HashMap;
use crate::hir::{
    Expr, ExprKind, Stmt, Span, method_calls_in, method_call_parts_in, method_calls_in_seq,
    method_calls_in_stmts, lemma_method_calls_in_seq, lemma_method_calls_in_stmts,
};
use crate::text::{str_eq, str_contains, seq_contains};

verus! {

broadcast use vstd::std_specs::hash::group_hash_axioms;

/// The lint pass; it keeps nothing between functions.
pub struct DosUnexpectedRevertWithStorage {}

impl DosUnexpectedRevertWithStorage {
    /// The lint pass.
    pub fn new() -> (r: DosUnexpectedRevertWithStorage) {
        DosUnexpectedRevertWithStorage {}
    }
}

/// What type checking resolves of a method call: the method's definition, the path that its
/// definition prints as, and the span of the method's name.
pub struct MethodFacts {
    pub def_id: u64,
    pub def_path: String,
    pub name_span: Span,
}

/// What the walk has found: the last storage growth (its method's definition and the span of
/// its name) and whether `require_auth` is called.
#[derive(Debug, Clone, Copy, PartialEq, Eq, Structural)]
pub struct FinderState {
    pub storage_mod_def_id: Option<u64>,
    pub storage_mod_span: Option<Span>,
    pub require_auth: bool,
}

/// What a method call records: `require_auth` is an authorization; growing a storage `Vec` or
/// setting in a storage `Map` is a storage modification.
pub open spec fn finder_effect(facts: Map<u64, MethodFacts>, e: Expr, s: FinderState) -> FinderState {
    match e.kind {
        ExprKind::MethodCall { method, .. } => {
            let f = facts[e.hir_id];
            let s1 = if method@ == "require_auth"@ { FinderState { require_auth: true, ..s } } else { s };
            let s2 = if seq_contains(f.def_path@, "soroban_sdk::Vec"@) && (method@ == "push_back"@ || method@ == "push_front"@) {
                FinderState { storage_mod_def_id: Some(f.def_id), storage_mod_span: Some(f.name_span), ..s1 }
            } else {
                s1
            };
            if seq_contains(f.def_path@, "soroban_sdk::Map"@) && method@ == "set"@ {
                FinderState { storage_mod_def_id: Some(f.def_id), storage_mod_span: Some(f.name_span), ..s2 }
            } else {
                s2
            }
        },
        _ => s,
    }
}

/// Visiting `e`: its effect, then its parts.
pub open spec fn finder_visit(facts: Map<u64, MethodFacts>, e: Expr, s: FinderState) -> FinderState
    decreases e, 1nat,
{
    finder_walk(facts, e, finder_effect(facts, e, s))
}

/// Visiting the parts of `e` in the order of the compiler's walk.
pub open spec fn finder_walk(facts: Map<u64, MethodFacts>, e: Expr, s: FinderState) -> FinderState
    decreases e, 0nat,
{
    match e.kind {
        ExprKind::Lit(_) => s,
        ExprKind::Path(_) => s,
        ExprKind::Binary(_, l, r) => finder_visit(facts, *r, finder_visit(facts, *l, s)),
        ExprKind::AssignOp(_, l, r) => finder_visit(facts, *l, finder_visit(facts, *r, s)),
        ExprKind::Assign(l, r) => finder_visit(facts, *l, finder_visit(facts, *r, s)),
        ExprKind::Unary(_, x) => finder_visit(facts, *x, s),
        ExprKind::AddrOf(_, x) => finder_visit(facts, *x, s),
        ExprKind::DropTemps(x) => finder_visit(facts, *x, s),
        ExprKind::Cast(x, _) => finder_visit(facts, *x, s),
        ExprKind::MethodCall { receiver, args, .. } => finder_seq(facts, args@, finder_visit(facts, *receiver, s)),
        ExprKind::Call { callee, args } => finder_seq(facts, args@, finder_visit(facts, *callee, s)),
        ExprKind::Block { stmts, tail } => {
            let s1 = finder_stmts(facts, stmts@, s);
            match tail {
                Some(t) => finder_visit(facts, *t, s1),
                None => s1,
            }
        },
        ExprKind::If { cond, then, els } => {
            let s1 = finder_visit(facts, *then, finder_visit(facts, *cond, s));
            match els {
                Some(x) => finder_visit(facts, *x, s1),
                None => s1,
            }
        },
        ExprKind::Let { init, .. } => finder_visit(facts, *init, s),
        ExprKind::Closure(_) => s,
        ExprKind::Other(cs) => finder_seq(facts, cs@, s),
    }
}

/// Visiting a sequence of expressions in order.
pub open spec fn finder_seq(facts: Map<u64, MethodFacts>, es: Seq<Expr>, s: FinderState) -> FinderState
    decreases es, 0nat,
{
    if es.len() == 0 {
        s
    } else {
        finder_visit(facts, es[es.len() - 1], finder_seq(facts, es.subrange(0, es.len() - 1), s))
    }
}

/// Visiting a block's statements in order.
pub open spec fn finder_stmts(facts: Map<u64, MethodFacts>, ss: Seq<Stmt>, s: FinderState) -> FinderState
    decreases ss, 0nat,
{
    if ss.len() == 0 {
        s
    } else {
        let s0 = finder_stmts(facts, ss.subrange(0, ss.len() - 1), s);
        match ss[ss.len() - 1] {
            Stmt::Let { init, .. } => match init {
                Some(i) => finder_visit(facts, i, s0),
                None => s0,
            },
            Stmt::Expr(x) => finder_visit(facts, x, s0),
            Stmt::Item => s0,
        }
    }
}

/// The walk over a function body.
pub struct UnprotectedStorageFinder {
    pub facts: HashMap<u64, MethodFacts>,
    pub state: FinderState,
}

impl UnprotectedStorageFinder {
    fn effect(&mut self, e: &Expr)
        requires
            e.kind is MethodCall ==> old(self).facts@.dom().contains(e.hir_id),
        ensures
            final(self).facts == old(self).facts,
            final(self).state == finder_effect(old(self).facts@, *e, old(self).state),
    {
        proof {
            reveal_strlit("require_auth");
            reveal_strlit("push_back");
            reveal_strlit("push_front");
            reveal_strlit("set");
        }
        if let ExprKind::MethodCall { method, .. } = &e.kind {
            let f = match self.facts.get(&e.hir_id) {
                Some(f) => f,
                None => {
                    return;
                },
            };
            let name = method.as_str();
            if str_eq(name, "require_auth") {
                self.state.require_auth = true;
            }
            if str_contains(f.def_path.as_str(), "soroban_sdk::Vec") && (str_eq(name, "push_back") || str_eq(name, "push_front")) {
                self.state.storage_mod_def_id = Some(f.def_id);
                self.state.storage_mod_span = Some(f.name_span);
            }
            if str_contains(f.def_path.as_str(), "soroban_sdk::Map") && str_eq(name, "set") {
                self.state.storage_mod_def_id = Some(f.def_id);
                self.state.storage_mod_span = Some(f.name_span);
            }
        }
    }

    /// Visits `e`, as [`finder_visit`] states.
    pub fn visit_expr(&mut self, e: &Expr)
        requires
            method_calls_in(*e, old(self).facts@.dom()),
        ensures
            final(self).facts == old(self).facts,
            final(self).state == finder_visit(old(self).facts@, *e, old(self).state),
        decreases *e, 1nat,
    {
        self.effect(e);
        self.walk_expr(e);
    }

    /// Visits the parts of `e`, as [`finder_walk`] states.
    pub fn walk_expr(&mut self, e: &Expr)
        requires
            method_call_parts_in(*e, old(self).facts@.dom()),
        ensures
            final(self).facts == old(self).facts,
            final(self).state == finder_walk(old(self).facts@, *e, old(self).state),
        decreases *e, 0nat,
    {
        match &e.kind {
            ExprKind::Lit(_) => {},
            ExprKind::Path(_) => {},
            ExprKind::Binary(_, l, r) => {
                self.visit_expr(l);
                self.visit_expr(r);
            },
            ExprKind::AssignOp(_, l, r) => {
                self.visit_expr(r);
                self.visit_expr(l);
            },
            ExprKind::Assign(l, r) => {
                self.visit_expr(r);
                self.visit_expr(l);
            },
            ExprKind::Unary(_, x) => self.visit_expr(x),
            ExprKind::AddrOf(_, x) => self.visit_expr(x),
            ExprKind::DropTemps(x) => self.visit_expr(x),
            ExprKind::Cast(x, _) => self.visit_expr(x),
            ExprKind::MethodCall { receiver, args, .. } => {
                self.visit_expr(receiver);
                self.visit_exprs(args);
            },
            ExprKind::Call { callee, args } => {
                self.visit_expr(callee);
                self.visit_exprs(args);
            },
            ExprKind::Block { stmts, tail } => {
                self.visit_stmts(stmts);
                if let Some(t) = tail {
                    self.visit_expr(t);
                }
            },
            ExprKind::If { cond, then, els } => {
                self.visit_expr(cond);
                self.visit_expr(then);
                if let Some(x) = els {
                    self.visit_expr(x);
                }
            },
            ExprKind::Let { init, .. } => self.visit_expr(init),
            ExprKind::Closure(_) => {},
            ExprKind::Other(cs) => self.visit_exprs(cs),
        }
    }

    #[verifier::loop_isolation(false)]
    fn visit_exprs(&mut self, es: &Vec<Expr>)
        requires
            method_calls_in_seq(es@, old(self).facts@.dom()),
        ensures
            final(self).facts == old(self).facts,
            final(self).state == finder_seq(old(self).facts@, es@, old(self).state),
        decreases *es, 0nat,
    {
        let ghost f = self.facts@;
        let ghost s0 = self.state;
        let mut i: usize = 0;
        while i < es.len()
            invariant
                i <= es@.len(),
                self.facts == old(self).facts,
                self.state == finder_seq(f, es@.subrange(0, i as int), s0),
            decreases es@.len() - i,
        {
            proof {
                lemma_method_calls_in_seq(es@, f.dom(), i as int);
                assert(decreases_to!(*es => es@));
                assert(decreases_to!(es@ => es@[i as int]));
                let p = es@.subrange(0, i + 1);
                assert(p.subrange(0, p.len() - 1) =~= es@.subrange(0, i as int));
            }
            self.visit_expr(&es[i]);
            i = i + 1;
        }
        assert(es@.subrange(0, es@.len() as int) =~= es@);
    }

    #[verifier::loop_isolation(false)]
    fn visit_stmts(&mut self, stmts: &Vec<Stmt>)
        requires
            method_calls_in_stmts(stmts@, old(self).facts@.dom()),
        ensures
            final(self).facts == old(self).facts,
            final(self).state == finder_stmts(old(self).facts@, stmts@, old(self).state),
        decreases *stmts, 0nat,
    {
        let ghost f = self.facts@;
        let ghost s0 = self.state;
        let mut i: usize = 0;
        while i < stmts.len()
            invariant
                i <= stmts@.len(),
                self.facts == old(self).facts,
                self.state == finder_stmts(f, stmts@.subrange(0, i as int), s0),
            decreases stmts@.len() - i,
        {
            proof {
                lemma_method_calls_in_stmts(stmts@, f.dom(), i as int);
                let p = stmts@.subrange(0, i + 1);
                assert(p.subrange(0, p.len() - 1) =~= stmts@.subrange(0, i as int));
                assert(p[p.len() - 1] == stmts@[i as int]);
                assert(method_calls_in_stmts(p, f.dom()));
                assert(decreases_to!(*stmts => stmts@));
                assert(decreases_to!(stmts@ => stmts@[i as int]));
            }
            match &stmts[i] {
                Stmt::Let { init, .. } => {
                    if let Some(x) = init {
                        proof {
                            assert(decreases_to!(stmts@[i as int] => stmts@[i as int]->Let_init));
                        }
                        self.visit_expr(x);
                    }
                },
                Stmt::Expr(x) => {
                    self.visit_expr(x);
                },
                Stmt::Item => {},
            }
            i = i + 1;
        }
        assert(stmts@.subrange(0, stmts@.len() as int) =~= stmts@);
    }
}

/// Where the lint reports in a body: at the name of the last storage growth when the body
/// never calls `require_auth`. The body's root expression itself is not checked, only its
/// parts.
pub open spec fn spec_dos_finding(facts: Map<u64, MethodFacts>, body: Expr) -> Option<Span> {
    let s = finder_walk(facts, body, FinderState { storage_mod_def_id: None, storage_mod_span: None, require_auth: false });
    if s.storage_mod_def_id is Some && !s.require_auth { s.storage_mod_span } else { None }
}

impl DosUnexpectedRevertWithStorage {
    /// Where the lint reports in a function body, as [`spec_dos_finding`] states; `facts`
    /// resolves every method call of the body.
    pub fn check_fn(&self, body: &Expr, facts: HashMap<u64, MethodFacts>) -> (r: Option<Span>)
        requires
            method_call_parts_in(*body, facts@.dom()),
        ensures
            r == spec_dos_finding(facts@, *body),
    {
        let mut finder = UnprotectedStorageFinder {
            facts,
            state: FinderState { storage_mod_def_id: None, storage_mod_span: None, require_auth: false },
        };
        finder.walk_expr(body);
        if finder.state.storage_mod_def_id.is_some() && !finder.state.require_auth {
            finder.state.storage_mod_span
        } else {
            None
        }
    }
}

} // verus!
