//! Ineffective TTL extensions: `extend_ttl` whose target is the threshold itself, or a
//! constant no higher than a constant threshold, extends nothing.
use vstd::prelude::*;
use std::collections::HashMap;
use crate::hir::{Expr, ExprKind, Stmt, Span, spec_get_expr_hir_id_opt, get_expr_hir_id_opt, visited_in, visited_in_parts, visited_in_seq, visited_in_stmts};
use crate::seqs::{extends, lemma_extends_trans, lemma_extends_contains};
use crate::safety_context::{ConstVal, const_int};
use crate::text::str_eq;

verus! {

broadcast use vstd::std_specs::hash::group_hash_axioms;

/// The lint pass.
pub struct IneffectiveExtendTtl;

/// What the walk reads of a node: its constant value, and whether its type is a storage
/// handle.
#[derive(Debug, Clone, Copy, PartialEq, Eq, Structural)]
pub struct TtlFacts {
    pub constant: Option<ConstVal>,
    pub is_storage: bool,
}

/// The facts of `e`; nothing is known of a node the table does not list.
pub open spec fn ttl_facts(facts: Map<u64, TtlFacts>, e: Expr) -> TtlFacts {
    if facts.dom().contains(e.hir_id) { facts[e.hir_id] } else { TtlFacts { constant: None, is_storage: false } }
}

/// Both operands are constants and the target is no higher than the threshold.
pub open spec fn spec_extend_to_not_higher(facts: Map<u64, TtlFacts>, threshold: Expr, extend_to: Expr) -> bool {
    match (const_int(ttl_facts(facts, threshold).constant), const_int(ttl_facts(facts, extend_to).constant)) {
        (Some(t), Some(x)) => x <= t,
        _ => false,
    }
}

/// Both operands stand for the same identifier.
pub open spec fn same_binding(threshold: Expr, extend_to: Expr) -> bool {
    match (spec_get_expr_hir_id_opt(threshold), spec_get_expr_hir_id_opt(extend_to)) {
        (Some(a), Some(b)) => a == b,
        _ => false,
    }
}

/// A call of `extend_ttl` on storage with a threshold and a target (after a key for
/// persistent and temporary storage) is reported at its call span when the target is the
/// threshold or a constant no higher than it.
pub open spec fn ttl_effect(facts: Map<u64, TtlFacts>, e: Expr, s: Seq<Span>) -> Seq<Span> {
    match e.kind {
        ExprKind::MethodCall { method, receiver, args, call_span } => {
            if method@ == "extend_ttl"@ && (args@.len() == 2 || args@.len() == 3) && ttl_facts(facts, *receiver).is_storage {
                let t = if args@.len() == 2 { args@[0] } else { args@[1] };
                let x = if args@.len() == 2 { args@[1] } else { args@[2] };
                if same_binding(t, x) || spec_extend_to_not_higher(facts, t, x) { s.push(call_span) } else { s }
            } else {
                s
            }
        },
        _ => s,
    }
}

/// Visiting `e`: its effect, then its parts.
pub open spec fn ttl_visit(facts: Map<u64, TtlFacts>, e: Expr, s: Seq<Span>) -> Seq<Span>
    decreases e, 1nat,
{
    ttl_walk(facts, e, ttl_effect(facts, e, s))
}

/// Visiting the parts of `e` in the order of the compiler's walk.
pub open spec fn ttl_walk(facts: Map<u64, TtlFacts>, e: Expr, s: Seq<Span>) -> Seq<Span>
    decreases e, 0nat,
{
    match e.kind {
        ExprKind::Lit(_) => s,
        ExprKind::Path(_) => s,
        ExprKind::Binary(_, l, r) => ttl_visit(facts, *r, ttl_visit(facts, *l, s)),
        ExprKind::AssignOp(_, l, r) => ttl_visit(facts, *l, ttl_visit(facts, *r, s)),
        ExprKind::Assign(l, r) => ttl_visit(facts, *l, ttl_visit(facts, *r, s)),
        ExprKind::Unary(_, x) => ttl_visit(facts, *x, s),
        ExprKind::AddrOf(_, x) => ttl_visit(facts, *x, s),
        ExprKind::DropTemps(x) => ttl_visit(facts, *x, s),
        ExprKind::Cast(x, _) => ttl_visit(facts, *x, s),
        ExprKind::MethodCall { receiver, args, .. } => ttl_seq(facts, args@, ttl_visit(facts, *receiver, s)),
        ExprKind::Call { callee, args } => ttl_seq(facts, args@, ttl_visit(facts, *callee, s)),
        ExprKind::Block { stmts, tail } => {
            let s1 = ttl_stmts(facts, stmts@, s);
            match tail {
                Some(t) => ttl_visit(facts, *t, s1),
                None => s1,
            }
        },
        ExprKind::If { cond, then, els } => {
            let s1 = ttl_visit(facts, *then, ttl_visit(facts, *cond, s));
            match els {
                Some(x) => ttl_visit(facts, *x, s1),
                None => s1,
            }
        },
        ExprKind::Let { init, .. } => ttl_visit(facts, *init, s),
        ExprKind::Closure(_) => s,
        ExprKind::Other(cs) => ttl_seq(facts, cs@, s),
    }
}

/// Visiting a sequence of expressions in order.
pub open spec fn ttl_seq(facts: Map<u64, TtlFacts>, es: Seq<Expr>, s: Seq<Span>) -> Seq<Span>
    decreases es, 0nat,
{
    if es.len() == 0 {
        s
    } else {
        ttl_visit(facts, es[es.len() - 1], ttl_seq(facts, es.subrange(0, es.len() - 1), s))
    }
}

/// Visiting a block's statements in order.
pub open spec fn ttl_stmts(facts: Map<u64, TtlFacts>, ss: Seq<Stmt>, s: Seq<Span>) -> Seq<Span>
    decreases ss, 0nat,
{
    if ss.len() == 0 {
        s
    } else {
        let s0 = ttl_stmts(facts, ss.subrange(0, ss.len() - 1), s);
        match ss[ss.len() - 1] {
            Stmt::Let { init, .. } => match init {
                Some(i) => ttl_visit(facts, i, s0),
                None => s0,
            },
            Stmt::Expr(x) => ttl_visit(facts, x, s0),
            Stmt::Item => s0,
        }
    }
}

/// The walk over a function body that collects the ineffective extensions.
pub struct IneffectiveExtendTtlVisitor {
    pub facts: HashMap<u64, TtlFacts>,
    pub reports: Vec<Span>,
}

impl IneffectiveExtendTtlVisitor {
    fn facts_of(&self, e: &Expr) -> (r: TtlFacts)
        ensures
            r == ttl_facts(self.facts@, *e),
    {
        match self.facts.get(&e.hir_id) {
            Some(f) => *f,
            None => TtlFacts { constant: None, is_storage: false },
        }
    }

    /// The integer constant value of `e`, if it has one.
    pub fn resolve_constant_u128(&self, e: &Expr) -> (r: Option<u128>)
        ensures
            r == const_int(ttl_facts(self.facts@, *e).constant),
    {
        match self.facts_of(e).constant {
            Some(ConstVal::Int(v)) => Some(v),
            _ => None,
        }
    }

    /// Whether both operands are constants and the target is no higher than the threshold.
    pub fn is_extend_to_smaller_than_threshold(&self, threshold: &Expr, extend_to: &Expr) -> (r: bool)
        ensures
            r == spec_extend_to_not_higher(self.facts@, *threshold, *extend_to),
    {
        match (self.resolve_constant_u128(threshold), self.resolve_constant_u128(extend_to)) {
            (Some(t), Some(x)) => x <= t,
            _ => false,
        }
    }

    fn effect(&mut self, e: &Expr)
        ensures
            final(self).facts == old(self).facts,
            final(self).reports@ == ttl_effect(old(self).facts@, *e, old(self).reports@),
    {
        proof {
            reveal_strlit("extend_ttl");
        }
        if let ExprKind::MethodCall { method, receiver, args, call_span } = &e.kind {
            let n = args.len();
            if str_eq(method.as_str(), "extend_ttl") && (n == 2 || n == 3) && self.facts_of(receiver).is_storage {
                let (ti, xi) = if n == 2 { (0usize, 1usize) } else { (1usize, 2usize) };
                let t = &args[ti];
                let x = &args[xi];
                let same = match (get_expr_hir_id_opt(t), get_expr_hir_id_opt(x)) {
                    (Some(a), Some(b)) => a == b,
                    _ => false,
                };
                let shrink = self.is_extend_to_smaller_than_threshold(t, x);
                if same || shrink {
                    self.reports.push(*call_span);
                }
            }
        }
    }

    /// Visits `e`, as [`ttl_visit`] states.
    pub fn visit_expr(&mut self, e: &Expr)
        ensures
            final(self).facts == old(self).facts,
            final(self).reports@ == ttl_visit(old(self).facts@, *e, old(self).reports@),
        decreases *e, 1nat,
    {
        self.effect(e);
        self.walk_expr(e);
    }

    /// Visits the parts of `e`, as [`ttl_walk`] states.
    pub fn walk_expr(&mut self, e: &Expr)
        ensures
            final(self).facts == old(self).facts,
            final(self).reports@ == ttl_walk(old(self).facts@, *e, old(self).reports@),
        decreases *e, 0nat,
    {
        match &e.kind {
            ExprKind::Lit(_) => {},
            ExprKind::Path(_) => {},
            ExprKind::Binary(_, l, r) => {
                self.visit_expr(l);
                self.visit_expr(r);
            },
            ExprKind::AssignOp(_, l, r) => {
                self.visit_expr(r);
                self.visit_expr(l);
            },
            ExprKind::Assign(l, r) => {
                self.visit_expr(r);
                self.visit_expr(l);
            },
            ExprKind::Unary(_, x) => self.visit_expr(x),
            ExprKind::AddrOf(_, x) => self.visit_expr(x),
            ExprKind::DropTemps(x) => self.visit_expr(x),
            ExprKind::Cast(x, _) => self.visit_expr(x),
            ExprKind::MethodCall { receiver, args, .. } => {
                self.visit_expr(receiver);
                self.visit_exprs(args);
            },
            ExprKind::Call { callee, args } => {
                self.visit_expr(callee);
                self.visit_exprs(args);
            },
            ExprKind::Block { stmts, tail } => {
                self.visit_stmts(stmts);
                if let Some(t) = tail {
                    self.visit_expr(t);
                }
            },
            ExprKind::If { cond, then, els } => {
                self.visit_expr(cond);
                self.visit_expr(then);
                if let Some(x) = els {
                    self.visit_expr(x);
                }
            },
            ExprKind::Let { init, .. } => self.visit_expr(init),
            ExprKind::Closure(_) => {},
            ExprKind::Other(cs) => self.visit_exprs(cs),
        }
    }

    #[verifier::loop_isolation(false)]
    fn visit_exprs(&mut self, es: &Vec<Expr>)
        ensures
            final(self).facts == old(self).facts,
            final(self).reports@ == ttl_seq(old(self).facts@, es@, old(self).reports@),
        decreases *es, 0nat,
    {
        let ghost f = self.facts@;
        let ghost s0 = self.reports@;
        let mut i: usize = 0;
        while i < es.len()
            invariant
                i <= es@.len(),
                self.facts == old(self).facts,
                self.reports@ == ttl_seq(f, es@.subrange(0, i as int), s0),
            decreases es@.len() - i,
        {
            proof {
                assert(decreases_to!(*es => es@));
                assert(decreases_to!(es@ => es@[i as int]));
                let p = es@.subrange(0, i + 1);
                assert(p.subrange(0, p.len() - 1) =~= es@.subrange(0, i as int));
            }
            self.visit_expr(&es[i]);
            i = i + 1;
        }
        assert(es@.subrange(0, es@.len() as int) =~= es@);
    }

    #[verifier::loop_isolation(false)]
    fn visit_stmts(&mut self, stmts: &Vec<Stmt>)
        ensures
            final(self).facts == old(self).facts,
            final(self).reports@ == ttl_stmts(old(self).facts@, stmts@, old(self).reports@),
        decreases *stmts, 0nat,
    {
        let ghost f = self.facts@;
        let ghost s0 = self.reports@;
        let mut i: usize = 0;
        while i < stmts.len()
            invariant
                i <= stmts@.len(),
                self.facts == old(self).facts,
                self.reports@ == ttl_stmts(f, stmts@.subrange(0, i as int), s0),
            decreases stmts@.len() - i,
        {
            proof {
                let p = stmts@.subrange(0, i + 1);
                assert(p.subrange(0, p.len() - 1) =~= stmts@.subrange(0, i as int));
                assert(p[p.len() - 1] == stmts@[i as int]);
                assert(decreases_to!(*stmts => stmts@));
                assert(decreases_to!(stmts@ => stmts@[i as int]));
            }
            match &stmts[i] {
                Stmt::Let { init, .. } => {
                    if let Some(x) = init {
                        proof {
                            assert(decreases_to!(stmts@[i as int] => stmts@[i as int]->Let_init));
                        }
                        self.visit_expr(x);
                    }
                },
                Stmt::Expr(x) => {
                    self.visit_expr(x);
                },
                Stmt::Item => {},
            }
            i = i + 1;
        }
        assert(stmts@.subrange(0, stmts@.len() as int) =~= stmts@);
    }

}

impl IneffectiveExtendTtl {
    /// The spans reported in a function body: none for a function from a macro expansion;
    /// else those of a walk over the parts of the body.
    pub fn check_fn(&self, from_expansion: bool, body: &Expr, facts: HashMap<u64, TtlFacts>) -> (r: Vec<Span>)
        ensures
            r@ == if from_expansion { Seq::<Span>::empty() } else { ttl_walk(facts@, *body, Seq::empty()) },
    {
        if from_expansion {
            return Vec::new();
        }
        let mut visitor = IneffectiveExtendTtlVisitor { facts, reports: Vec::new() };
        proof {
            assert(visitor.reports@ =~= Seq::<Span>::empty());
        }
        visitor.walk_expr(body);
        visitor.reports
    }
}

/// `x` extends the TTL of storage to no more than its threshold: a call of `extend_ttl` on a
/// storage handle, with a threshold and a target (after a key, for three arguments), where
/// the target is the threshold itself or both are constants and the target is no higher.
pub open spec fn ineffective_extend(facts: Map<u64, TtlFacts>, x: Expr) -> bool {
    &&& x.kind matches ExprKind::MethodCall { method, receiver, args, .. }
    &&& method@ == "extend_ttl"@
    &&& ttl_facts(facts, *receiver).is_storage
    &&& (args@.len() == 2 || args@.len() == 3)
    &&& {
        let t = if args@.len() == 2 { args@[0] } else { args@[1] };
        let v = if args@.len() == 2 { args@[1] } else { args@[2] };
        same_binding(t, v) || match (const_int(ttl_facts(facts, t).constant), const_int(ttl_facts(facts, v).constant)) {
            (Some(a), Some(b)) => b <= a,
            _ => false,
        }
    }
}

/// A visit's own effect appends at most one span, and appends the call's span for an
/// ineffective extension.
pub proof fn lemma_ttl_effect(facts: Map<u64, TtlFacts>, e: Expr, s: Seq<Span>)
    ensures
        extends(s, ttl_effect(facts, e, s)),
        ineffective_extend(facts, e) ==> ttl_effect(facts, e, s) == s.push(e.kind->MethodCall_call_span),
{
}

/// A walk only appends: the spans reported before it stay, in place.
pub proof fn lemma_ttl_visit_ext(facts: Map<u64, TtlFacts>, e: Expr, s: Seq<Span>)
    ensures
        extends(s, ttl_visit(facts, e, s)),
    decreases e, 1nat,
{
    let s1 = ttl_effect(facts, e, s);
    lemma_ttl_effect(facts, e, s);
    lemma_ttl_walk_ext(facts, e, s1);
    lemma_extends_trans(s, s1, ttl_walk(facts, e, s1));
}

/// A walk only appends: the spans reported before it stay, in place.
pub proof fn lemma_ttl_walk_ext(facts: Map<u64, TtlFacts>, e: Expr, s: Seq<Span>)
    ensures
        extends(s, ttl_walk(facts, e, s)),
    decreases e, 0nat,
{
    match e.kind {
        ExprKind::Binary(_, l, r) => {
            let a = ttl_visit(facts, *l, s);
            lemma_ttl_visit_ext(facts, *l, s);
            lemma_ttl_visit_ext(facts, *r, a);
            lemma_extends_trans(s, a, ttl_visit(facts, *r, a));
        },
        ExprKind::AssignOp(_, l, r) => {
            let a = ttl_visit(facts, *r, s);
            lemma_ttl_visit_ext(facts, *r, s);
            lemma_ttl_visit_ext(facts, *l, a);
            lemma_extends_trans(s, a, ttl_visit(facts, *l, a));
        },
        ExprKind::Assign(l, r) => {
            let a = ttl_visit(facts, *r, s);
            lemma_ttl_visit_ext(facts, *r, s);
            lemma_ttl_visit_ext(facts, *l, a);
            lemma_extends_trans(s, a, ttl_visit(facts, *l, a));
        },
        ExprKind::Unary(_, y) => lemma_ttl_visit_ext(facts, *y, s),
        ExprKind::AddrOf(_, y) => lemma_ttl_visit_ext(facts, *y, s),
        ExprKind::DropTemps(y) => lemma_ttl_visit_ext(facts, *y, s),
        ExprKind::Cast(y, _) => lemma_ttl_visit_ext(facts, *y, s),
        ExprKind::MethodCall { receiver, args, .. } => {
            let a = ttl_visit(facts, *receiver, s);
            lemma_ttl_visit_ext(facts, *receiver, s);
            lemma_ttl_seq_ext(facts, args@, a);
            lemma_extends_trans(s, a, ttl_seq(facts, args@, a));
        },
        ExprKind::Call { callee, args } => {
            let a = ttl_visit(facts, *callee, s);
            lemma_ttl_visit_ext(facts, *callee, s);
            lemma_ttl_seq_ext(facts, args@, a);
            lemma_extends_trans(s, a, ttl_seq(facts, args@, a));
        },
        ExprKind::Block { stmts, tail } => {
            let a = ttl_stmts(facts, stmts@, s);
            lemma_ttl_stmts_ext(facts, stmts@, s);
            match tail {
                Some(tl) => {
                    lemma_ttl_visit_ext(facts, *tl, a);
                    lemma_extends_trans(s, a, ttl_visit(facts, *tl, a));
                },
                None => {},
            }
        },
        ExprKind::If { cond, then, els } => {
            let a = ttl_visit(facts, *cond, s);
            let b = ttl_visit(facts, *then, a);
            lemma_ttl_visit_ext(facts, *cond, s);
            lemma_ttl_visit_ext(facts, *then, a);
            lemma_extends_trans(s, a, b);
            match els {
                Some(y) => {
                    lemma_ttl_visit_ext(facts, *y, b);
                    lemma_extends_trans(s, b, ttl_visit(facts, *y, b));
                },
                None => {},
            }
        },
        ExprKind::Let { init, .. } => lemma_ttl_visit_ext(facts, *init, s),
        ExprKind::Other(cs) => lemma_ttl_seq_ext(facts, cs@, s),
        _ => {},
    }
}

/// A walk only appends: the spans reported before it stay, in place.
pub proof fn lemma_ttl_seq_ext(facts: Map<u64, TtlFacts>, es: Seq<Expr>, s: Seq<Span>)
    ensures
        extends(s, ttl_seq(facts, es, s)),
    decreases es, 0nat,
{
    if es.len() > 0 {
        let p = es.subrange(0, es.len() - 1);
        let a = ttl_seq(facts, p, s);
        lemma_ttl_seq_ext(facts, p, s);
        lemma_ttl_visit_ext(facts, es[es.len() - 1], a);
        lemma_extends_trans(s, a, ttl_visit(facts, es[es.len() - 1], a));
    }
}

/// A walk only appends: the spans reported before it stay, in place.
pub proof fn lemma_ttl_stmts_ext(facts: Map<u64, TtlFacts>, ss: Seq<Stmt>, s: Seq<Span>)
    ensures
        extends(s, ttl_stmts(facts, ss, s)),
    decreases ss, 0nat,
{
    if ss.len() > 0 {
        let p = ss.subrange(0, ss.len() - 1);
        let a = ttl_stmts(facts, p, s);
        lemma_ttl_stmts_ext(facts, p, s);
        match ss[ss.len() - 1] {
            Stmt::Let { init, .. } => match init {
                Some(i) => {
                    lemma_ttl_visit_ext(facts, i, a);
                    lemma_extends_trans(s, a, ttl_visit(facts, i, a));
                },
                None => {},
            },
            Stmt::Expr(y) => {
                lemma_ttl_visit_ext(facts, y, a);
                lemma_extends_trans(s, a, ttl_visit(facts, y, a));
            },
            Stmt::Item => {},
        }
    }
}

/// An ineffective extension that the walk reaches is reported at its call span.
pub proof fn lemma_ttl_visit_finds(facts: Map<u64, TtlFacts>, x: Expr, e: Expr, s: Seq<Span>)
    requires
        visited_in(x, e),
        ineffective_extend(facts, x),
    ensures
        ttl_visit(facts, e, s).contains(x.kind->MethodCall_call_span),
    decreases e, 1nat,
{
    let s1 = ttl_effect(facts, e, s);
    lemma_ttl_effect(facts, e, s);
    if x == e {
        assert(s1[s.len() as int] == x.kind->MethodCall_call_span);
        lemma_ttl_walk_ext(facts, e, s1);
        lemma_extends_contains(s1, ttl_walk(facts, e, s1), x.kind->MethodCall_call_span);
    } else {
        lemma_ttl_walk_finds(facts, x, e, s1);
    }
}

/// An ineffective extension that the walk reaches is reported at its call span.
pub proof fn lemma_ttl_walk_finds(facts: Map<u64, TtlFacts>, x: Expr, e: Expr, s: Seq<Span>)
    requires
        visited_in_parts(x, e),
        ineffective_extend(facts, x),
    ensures
        ttl_walk(facts, e, s).contains(x.kind->MethodCall_call_span),
    decreases e, 0nat,
{
    match e.kind {
        ExprKind::Binary(_, l, r) => {
            let a = ttl_visit(facts, *l, s);
            if visited_in(x, *r) {
                lemma_ttl_visit_finds(facts, x, *r, a);
            } else {
                lemma_ttl_visit_finds(facts, x, *l, s);
                lemma_ttl_visit_ext(facts, *r, a);
                lemma_extends_contains(a, ttl_visit(facts, *r, a), x.kind->MethodCall_call_span);
            }
        },
        ExprKind::AssignOp(_, l, r) => {
            let a = ttl_visit(facts, *r, s);
            if visited_in(x, *l) {
                lemma_ttl_visit_finds(facts, x, *l, a);
            } else {
                lemma_ttl_visit_finds(facts, x, *r, s);
                lemma_ttl_visit_ext(facts, *l, a);
                lemma_extends_contains(a, ttl_visit(facts, *l, a), x.kind->MethodCall_call_span);
            }
        },
        ExprKind::Assign(l, r) => {
            let a = ttl_visit(facts, *r, s);
            if visited_in(x, *l) {
                lemma_ttl_visit_finds(facts, x, *l, a);
            } else {
                lemma_ttl_visit_finds(facts, x, *r, s);
                lemma_ttl_visit_ext(facts, *l, a);
                lemma_extends_contains(a, ttl_visit(facts, *l, a), x.kind->MethodCall_call_span);
            }
        },
        ExprKind::Unary(_, y) => { lemma_ttl_visit_finds(facts, x, *y, s); },
        ExprKind::AddrOf(_, y) => { lemma_ttl_visit_finds(facts, x, *y, s); },
        ExprKind::DropTemps(y) => { lemma_ttl_visit_finds(facts, x, *y, s); },
        ExprKind::Cast(y, _) => { lemma_ttl_visit_finds(facts, x, *y, s); },
        ExprKind::MethodCall { receiver, args, .. } => {
            let a = ttl_visit(facts, *receiver, s);
            if visited_in_seq(x, args@) {
                lemma_ttl_seq_finds(facts, x, args@, a);
            } else {
                lemma_ttl_visit_finds(facts, x, *receiver, s);
                lemma_ttl_seq_ext(facts, args@, a);
                lemma_extends_contains(a, ttl_seq(facts, args@, a), x.kind->MethodCall_call_span);
            }
        },
        ExprKind::Call { callee, args } => {
            let a = ttl_visit(facts, *callee, s);
            if visited_in_seq(x, args@) {
                lemma_ttl_seq_finds(facts, x, args@, a);
            } else {
                lemma_ttl_visit_finds(facts, x, *callee, s);
                lemma_ttl_seq_ext(facts, args@, a);
                lemma_extends_contains(a, ttl_seq(facts, args@, a), x.kind->MethodCall_call_span);
            }
        },
        ExprKind::Block { stmts, tail } => {
            let a = ttl_stmts(facts, stmts@, s);
            match tail {
                Some(tl) => {
                    if visited_in(x, *tl) {
                        lemma_ttl_visit_finds(facts, x, *tl, a);
                    } else {
                        lemma_ttl_stmts_finds(facts, x, stmts@, s);
                        lemma_ttl_visit_ext(facts, *tl, a);
                        lemma_extends_contains(a, ttl_visit(facts, *tl, a), x.kind->MethodCall_call_span);
                    }
                },
                None => {
                    lemma_ttl_stmts_finds(facts, x, stmts@, s);
                },
            }
        },
        ExprKind::If { cond, then, els } => {
            let a = ttl_visit(facts, *cond, s);
            let b = ttl_visit(facts, *then, a);
            let in_y = match els {
                Some(y) => visited_in(x, *y),
                None => false,
            };
            if !in_y {
                if visited_in(x, *then) {
                    lemma_ttl_visit_finds(facts, x, *then, a);
                } else {
                    lemma_ttl_visit_finds(facts, x, *cond, s);
                    lemma_ttl_visit_ext(facts, *then, a);
                    lemma_extends_contains(a, b, x.kind->MethodCall_call_span);
                }
            }
            match els {
                Some(y) => {
                    if in_y {
                        lemma_ttl_visit_finds(facts, x, *y, b);
                    } else {
                        lemma_ttl_visit_ext(facts, *y, b);
                        lemma_extends_contains(b, ttl_visit(facts, *y, b), x.kind->MethodCall_call_span);
                    }
                },
                None => {},
            }
        },
        ExprKind::Let { init, .. } => { lemma_ttl_visit_finds(facts, x, *init, s); },
        ExprKind::Other(cs) => {
            lemma_ttl_seq_finds(facts, x, cs@, s);
        },
        _ => {},
    }
}

/// An ineffective extension that the walk reaches is reported at its call span.
pub proof fn lemma_ttl_seq_finds(facts: Map<u64, TtlFacts>, x: Expr, es: Seq<Expr>, s: Seq<Span>)
    requires
        visited_in_seq(x, es),
        ineffective_extend(facts, x),
    ensures
        ttl_seq(facts, es, s).contains(x.kind->MethodCall_call_span),
    decreases es, 0nat,
{
    let p = es.subrange(0, es.len() - 1);
    let a = ttl_seq(facts, p, s);
    if visited_in(x, es[es.len() - 1]) {
        lemma_ttl_visit_finds(facts, x, es[es.len() - 1], a);
    } else {
        lemma_ttl_seq_finds(facts, x, p, s);
        lemma_ttl_visit_ext(facts, es[es.len() - 1], a);
        lemma_extends_contains(a, ttl_visit(facts, es[es.len() - 1], a), x.kind->MethodCall_call_span);
    }
}

/// An ineffective extension that the walk reaches is reported at its call span.
pub proof fn lemma_ttl_stmts_finds(facts: Map<u64, TtlFacts>, x: Expr, ss: Seq<Stmt>, s: Seq<Span>)
    requires
        visited_in_stmts(x, ss),
        ineffective_extend(facts, x),
    ensures
        ttl_stmts(facts, ss, s).contains(x.kind->MethodCall_call_span),
    decreases ss, 0nat,
{
    let p = ss.subrange(0, ss.len() - 1);
    let a = ttl_stmts(facts, p, s);
    match ss[ss.len() - 1] {
        Stmt::Let { init, .. } => match init {
            Some(i) => {
                if visited_in(x, i) {
                    lemma_ttl_visit_finds(facts, x, i, a);
                } else {
                    lemma_ttl_stmts_finds(facts, x, p, s);
                    lemma_ttl_visit_ext(facts, i, a);
                    lemma_extends_contains(a, ttl_visit(facts, i, a), x.kind->MethodCall_call_span);
                }
            },
            None => {
                lemma_ttl_stmts_finds(facts, x, p, s);
            },
        },
        Stmt::Expr(y) => {
            if visited_in(x, y) {
                lemma_ttl_visit_finds(facts, x, y, a);
            } else {
                lemma_ttl_stmts_finds(facts, x, p, s);
                lemma_ttl_visit_ext(facts, y, a);
                lemma_extends_contains(a, ttl_visit(facts, y, a), x.kind->MethodCall_call_span);
            }
        },
        Stmt::Item => {
            lemma_ttl_stmts_finds(facts, x, p, s);
        },
    }
}

/// Every ineffective TTL extension in a function body is reported: each call that the
/// compiler's walk of the body's parts reaches, in a `let` initializer or a builder chain as
/// anywhere else, has its call span among the reported spans.
pub proof fn law_every_ineffective_extension_reported(facts: Map<u64, TtlFacts>, body: Expr, x: Expr)
    requires
        visited_in_parts(x, body),
        ineffective_extend(facts, x),
    ensures
        ttl_walk(facts, body, Seq::empty()).contains(x.kind->MethodCall_call_span),
{
    lemma_ttl_walk_finds(facts, x, body, Seq::empty());
}

} // verus!
