//! Uses of `sr25519_verify`, an unstable host function.
use vstd::prelude::*;
use crate::hir::{Expr, ExprKind, Stmt, Span, QPath, PathSegment, visited_in, visited_in_parts, visited_in_seq, visited_in_stmts};
use crate::seqs::{extends, lemma_extends_trans, lemma_extends_contains};
use crate::text::str_eq;

verus! {

/// The lint pass.
pub struct WarningSr25519Verify;

/// A resolved path one of whose segments is `sr25519_verify`.
pub open spec fn names_sr25519_verify(e: Expr) -> bool {
    match e.kind {
        ExprKind::Path(q) => match q {
            QPath::Resolved { segments, .. } => exists|i: int| 0 <= i < segments@.len() && (#[trigger] segments@[i]).name@ == "sr25519_verify"@,
            _ => false,
        },
        _ => false,
    }
}

/// Visiting `e`: a path naming `sr25519_verify` is reported, then its parts are visited.
pub open spec fn sr_visit(e: Expr, s: Seq<Span>) -> Seq<Span>
    decreases e, 1nat,
{
    sr_walk(e, if names_sr25519_verify(e) { s.push(e.span) } else { s })
}

/// Visiting the parts of `e` in the order of the compiler's walk.
pub open spec fn sr_walk(e: Expr, s: Seq<Span>) -> Seq<Span>
    decreases e, 0nat,
{
    match e.kind {
        ExprKind::Lit(_) => s,
        ExprKind::Path(_) => s,
        ExprKind::Binary(_, l, r) => sr_visit(*r, sr_visit(*l, s)),
        ExprKind::AssignOp(_, l, r) => sr_visit(*l, sr_visit(*r, s)),
        ExprKind::Assign(l, r) => sr_visit(*l, sr_visit(*r, s)),
        ExprKind::Unary(_, x) => sr_visit(*x, s),
        ExprKind::AddrOf(_, x) => sr_visit(*x, s),
        ExprKind::DropTemps(x) => sr_visit(*x, s),
        ExprKind::Cast(x, _) => sr_visit(*x, s),
        ExprKind::MethodCall { receiver, args, .. } => sr_seq(args@, sr_visit(*receiver, s)),
        ExprKind::Call { callee, args } => sr_seq(args@, sr_visit(*callee, s)),
        ExprKind::Block { stmts, tail } => {
            let s1 = sr_stmts(stmts@, s);
            match tail {
                Some(t) => sr_visit(*t, s1),
                None => s1,
            }
        },
        ExprKind::If { cond, then, els } => {
            let s1 = sr_visit(*then, sr_visit(*cond, s));
            match els {
                Some(x) => sr_visit(*x, s1),
                None => s1,
            }
        },
        ExprKind::Let { init, .. } => sr_visit(*init, s),
        ExprKind::Closure(_) => s,
        ExprKind::Other(cs) => sr_seq(cs@, s),
    }
}

/// Visiting a sequence of expressions in order.
pub open spec fn sr_seq(es: Seq<Expr>, s: Seq<Span>) -> Seq<Span>
    decreases es, 0nat,
{
    if es.len() == 0 {
        s
    } else {
        sr_visit(es[es.len() - 1], sr_seq(es.subrange(0, es.len() - 1), s))
    }
}

/// Visiting a block's statements in order.
pub open spec fn sr_stmts(ss: Seq<Stmt>, s: Seq<Span>) -> Seq<Span>
    decreases ss, 0nat,
{
    if ss.len() == 0 {
        s
    } else {
        let s0 = sr_stmts(ss.subrange(0, ss.len() - 1), s);
        match ss[ss.len() - 1] {
            Stmt::Let { init, .. } => match init {
                Some(i) => sr_visit(i, s0),
                None => s0,
            },
            Stmt::Expr(x) => sr_visit(x, s0),
            Stmt::Item => s0,
        }
    }
}

/// The walk that collects the uses of `sr25519_verify`.
pub struct WarningSr25519VerifyVisitor {
    pub has_sr25519_verify: bool,
    pub spans: Vec<Span>,
}

fn segments_name_it(segments: &Vec<PathSegment>) -> (r: bool)
    ensures
        r == exists|i: int| 0 <= i < segments@.len() && (#[trigger] segments@[i]).name@ == "sr25519_verify"@,
{
    let mut i: usize = 0;
    while i < segments.len()
        invariant
            i <= segments@.len(),
            forall|j: int| 0 <= j < i ==> (#[trigger] segments@[j]).name@ != "sr25519_verify"@,
        decreases segments@.len() - i,
    {
        if str_eq(segments[i].name.as_str(), "sr25519_verify") {
            return true;
        }
        i = i + 1;
    }
    false
}

impl WarningSr25519VerifyVisitor {
    fn effect(&mut self, e: &Expr)
        ensures
            final(self).spans@ == if names_sr25519_verify(*e) { old(self).spans@.push(e.span) } else { old(self).spans@ },
            final(self).has_sr25519_verify == (old(self).has_sr25519_verify || names_sr25519_verify(*e)),
    {
        if let ExprKind::Path(QPath::Resolved { segments, .. }) = &e.kind {
            if segments_name_it(segments) {
                self.has_sr25519_verify = true;
                self.spans.push(e.span);
            }
        }
    }

    /// Visits `e`, as [`sr_visit`] states.
    pub fn visit_expr(&mut self, e: &Expr)
        ensures
            final(self).spans@ == sr_visit(*e, old(self).spans@),
        decreases *e, 1nat,
    {
        self.effect(e);
        self.walk_expr(e);
    }

    /// Visits the parts of `e`, as [`sr_walk`] states.
    pub fn walk_expr(&mut self, e: &Expr)
        ensures
            final(self).spans@ == sr_walk(*e, old(self).spans@),
        decreases *e, 0nat,
    {
        match &e.kind {
            ExprKind::Lit(_) => {},
            ExprKind::Path(_) => {},
            ExprKind::Binary(_, l, r) => {
                self.visit_expr(l);
                self.visit_expr(r);
            },
            ExprKind::AssignOp(_, l, r) => {
                self.visit_expr(r);
                self.visit_expr(l);
            },
            ExprKind::Assign(l, r) => {
                self.visit_expr(r);
                self.visit_expr(l);
            },
            ExprKind::Unary(_, x) => self.visit_expr(x),
            ExprKind::AddrOf(_, x) => self.visit_expr(x),
            ExprKind::DropTemps(x) => self.visit_expr(x),
            ExprKind::Cast(x, _) => self.visit_expr(x),
            ExprKind::MethodCall { receiver, args, .. } => {
                self.visit_expr(receiver);
                self.visit_exprs(args);
            },
            ExprKind::Call { callee, args } => {
                self.visit_expr(callee);
                self.visit_exprs(args);
            },
            ExprKind::Block { stmts, tail } => {
                self.visit_stmts(stmts);
                if let Some(t) = tail {
                    self.visit_expr(t);
                }
            },
            ExprKind::If { cond, then, els } => {
                self.visit_expr(cond);
                self.visit_expr(then);
                if let Some(x) = els {
                    self.visit_expr(x);
                }
            },
            ExprKind::Let { init, .. } => self.visit_expr(init),
            ExprKind::Closure(_) => {},
            ExprKind::Other(cs) => self.visit_exprs(cs),
        }
    }

    #[verifier::loop_isolation(false)]
    fn visit_exprs(&mut self, es: &Vec<Expr>)
        ensures
            final(self).spans@ == sr_seq(es@, old(self).spans@),
        decreases *es, 0nat,
    {
        let ghost s0 = self.spans@;
        let mut i: usize = 0;
        while i < es.len()
            invariant
                i <= es@.len(),
                self.spans@ == sr_seq(es@.subrange(0, i as int), s0),
            decreases es@.len() - i,
        {
            proof {
                assert(decreases_to!(*es => es@));
                assert(decreases_to!(es@ => es@[i as int]));
                let p = es@.subrange(0, i + 1);
                assert(p.subrange(0, p.len() - 1) =~= es@.subrange(0, i as int));
            }
            self.visit_expr(&es[i]);
            i = i + 1;
        }
        assert(es@.subrange(0, es@.len() as int) =~= es@);
    }

    #[verifier::loop_isolation(false)]
    fn visit_stmts(&mut self, stmts: &Vec<Stmt>)
        ensures
            final(self).spans@ == sr_stmts(stmts@, old(self).spans@),
        decreases *stmts, 0nat,
    {
        let ghost s0 = self.spans@;
        let mut i: usize = 0;
        while i < stmts.len()
            invariant
                i <= stmts@.len(),
                self.spans@ == sr_stmts(stmts@.subrange(0, i as int), s0),
            decreases stmts@.len() - i,
        {
            proof {
                let p = stmts@.subrange(0, i + 1);
                assert(p.subrange(0, p.len() - 1) =~= stmts@.subrange(0, i as int));
                assert(p[p.len() - 1] == stmts@[i as int]);
                assert(decreases_to!(*stmts => stmts@));
                assert(decreases_to!(stmts@ => stmts@[i as int]));
            }
            match &stmts[i] {
                Stmt::Let { init, .. } => {
                    if let Some(x) = init {
                        proof {
                            assert(decreases_to!(stmts@[i as int] => stmts@[i as int]->Let_init));
                        }
                        self.visit_expr(x);
                    }
                },
                Stmt::Expr(x) => {
                    self.visit_expr(x);
                },
                Stmt::Item => {},
            }
            i = i + 1;
        }
        assert(stmts@.subrange(0, stmts@.len() as int) =~= stmts@);
    }

}

impl WarningSr25519Verify {
    /// The spans of the uses of `sr25519_verify` in a function body, in walk order.
    pub fn check_fn(&self, body: &Expr) -> (r: Vec<Span>)
        ensures
            r@ == sr_visit(*body, Seq::empty()),
    {
        let mut visitor = WarningSr25519VerifyVisitor { has_sr25519_verify: false, spans: Vec::new() };
        proof {
            assert(visitor.spans@ =~= Seq::<Span>::empty());
        }
        visitor.visit_expr(body);
        visitor.spans
    }
}

/// A walk only appends: the spans reported before it stay, in place.
pub proof fn lemma_sr_visit_ext(e: Expr, s: Seq<Span>)
    ensures
        extends(s, sr_visit(e, s)),
    decreases e, 1nat,
{
    let s1 = if names_sr25519_verify(e) { s.push(e.span) } else { s };
    lemma_sr_walk_ext(e, s1);
    lemma_extends_trans(s, s1, sr_walk(e, s1));
}

/// A walk only appends: the spans reported before it stay, in place.
pub proof fn lemma_sr_walk_ext(e: Expr, s: Seq<Span>)
    ensures
        extends(s, sr_walk(e, s)),
    decreases e, 0nat,
{
    match e.kind {
        ExprKind::Binary(_, l, r) => {
            let a = sr_visit(*l, s);
            lemma_sr_visit_ext(*l, s);
            lemma_sr_visit_ext(*r, a);
            lemma_extends_trans(s, a, sr_visit(*r, a));
        },
        ExprKind::AssignOp(_, l, r) => {
            let a = sr_visit(*r, s);
            lemma_sr_visit_ext(*r, s);
            lemma_sr_visit_ext(*l, a);
            lemma_extends_trans(s, a, sr_visit(*l, a));
        },
        ExprKind::Assign(l, r) => {
            let a = sr_visit(*r, s);
            lemma_sr_visit_ext(*r, s);
            lemma_sr_visit_ext(*l, a);
            lemma_extends_trans(s, a, sr_visit(*l, a));
        },
        ExprKind::Unary(_, y) => lemma_sr_visit_ext(*y, s),
        ExprKind::AddrOf(_, y) => lemma_sr_visit_ext(*y, s),
        ExprKind::DropTemps(y) => lemma_sr_visit_ext(*y, s),
        ExprKind::Cast(y, _) => lemma_sr_visit_ext(*y, s),
        ExprKind::MethodCall { receiver, args, .. } => {
            let a = sr_visit(*receiver, s);
            lemma_sr_visit_ext(*receiver, s);
            lemma_sr_seq_ext(args@, a);
            lemma_extends_trans(s, a, sr_seq(args@, a));
        },
        ExprKind::Call { callee, args } => {
            let a = sr_visit(*callee, s);
            lemma_sr_visit_ext(*callee, s);
            lemma_sr_seq_ext(args@, a);
            lemma_extends_trans(s, a, sr_seq(args@, a));
        },
        ExprKind::Block { stmts, tail } => {
            let a = sr_stmts(stmts@, s);
            lemma_sr_stmts_ext(stmts@, s);
            match tail {
                Some(tl) => {
                    lemma_sr_visit_ext(*tl, a);
                    lemma_extends_trans(s, a, sr_visit(*tl, a));
                },
                None => {},
            }
        },
        ExprKind::If { cond, then, els } => {
            let a = sr_visit(*cond, s);
            let b = sr_visit(*then, a);
            lemma_sr_visit_ext(*cond, s);
            lemma_sr_visit_ext(*then, a);
            lemma_extends_trans(s, a, b);
            match els {
                Some(y) => {
                    lemma_sr_visit_ext(*y, b);
                    lemma_extends_trans(s, b, sr_visit(*y, b));
                },
                None => {},
            }
        },
        ExprKind::Let { init, .. } => lemma_sr_visit_ext(*init, s),
        ExprKind::Other(cs) => lemma_sr_seq_ext(cs@, s),
        _ => {},
    }
}

/// A walk only appends: the spans reported before it stay, in place.
pub proof fn lemma_sr_seq_ext(es: Seq<Expr>, s: Seq<Span>)
    ensures
        extends(s, sr_seq(es, s)),
    decreases es, 0nat,
{
    if es.len() > 0 {
        let p = es.subrange(0, es.len() - 1);
        let a = sr_seq(p, s);
        lemma_sr_seq_ext(p, s);
        lemma_sr_visit_ext(es[es.len() - 1], a);
        lemma_extends_trans(s, a, sr_visit(es[es.len() - 1], a));
    }
}

/// A walk only appends: the spans reported before it stay, in place.
pub proof fn lemma_sr_stmts_ext(ss: Seq<Stmt>, s: Seq<Span>)
    ensures
        extends(s, sr_stmts(ss, s)),
    decreases ss, 0nat,
{
    if ss.len() > 0 {
        let p = ss.subrange(0, ss.len() - 1);
        let a = sr_stmts(p, s);
        lemma_sr_stmts_ext(p, s);
        match ss[ss.len() - 1] {
            Stmt::Let { init, .. } => match init {
                Some(i) => {
                    lemma_sr_visit_ext(i, a);
                    lemma_extends_trans(s, a, sr_visit(i, a));
                },
                None => {},
            },
            Stmt::Expr(y) => {
                lemma_sr_visit_ext(y, a);
                lemma_extends_trans(s, a, sr_visit(y, a));
            },
            Stmt::Item => {},
        }
    }
}

/// A use of `sr25519_verify` that the walk reaches is among the spans it reports.
pub proof fn lemma_sr_visit_finds(x: Expr, e: Expr, s: Seq<Span>)
    requires
        visited_in(x, e),
        names_sr25519_verify(x),
    ensures
        sr_visit(e, s).contains(x.span),
    decreases e, 1nat,
{
    let s1 = if names_sr25519_verify(e) { s.push(e.span) } else { s };
    if x == e {
        assert(s1[s.len() as int] == x.span);
        lemma_sr_walk_ext(e, s1);
        lemma_extends_contains(s1, sr_walk(e, s1), x.span);
    } else {
        lemma_sr_walk_finds(x, e, s1);
    }
}

/// A use of `sr25519_verify` that the walk reaches is among the spans it reports.
pub proof fn lemma_sr_walk_finds(x: Expr, e: Expr, s: Seq<Span>)
    requires
        visited_in_parts(x, e),
        names_sr25519_verify(x),
    ensures
        sr_walk(e, s).contains(x.span),
    decreases e, 0nat,
{
    match e.kind {
        ExprKind::Binary(_, l, r) => {
            let a = sr_visit(*l, s);
            if visited_in(x, *r) {
                lemma_sr_visit_finds(x, *r, a);
            } else {
                lemma_sr_visit_finds(x, *l, s);
                lemma_sr_visit_ext(*r, a);
                lemma_extends_contains(a, sr_visit(*r, a), x.span);
            }
        },
        ExprKind::AssignOp(_, l, r) => {
            let a = sr_visit(*r, s);
            if visited_in(x, *l) {
                lemma_sr_visit_finds(x, *l, a);
            } else {
                lemma_sr_visit_finds(x, *r, s);
                lemma_sr_visit_ext(*l, a);
                lemma_extends_contains(a, sr_visit(*l, a), x.span);
            }
        },
        ExprKind::Assign(l, r) => {
            let a = sr_visit(*r, s);
            if visited_in(x, *l) {
                lemma_sr_visit_finds(x, *l, a);
            } else {
                lemma_sr_visit_finds(x, *r, s);
                lemma_sr_visit_ext(*l, a);
                lemma_extends_contains(a, sr_visit(*l, a), x.span);
            }
        },
        ExprKind::Unary(_, y) => { lemma_sr_visit_finds(x, *y, s); },
        ExprKind::AddrOf(_, y) => { lemma_sr_visit_finds(x, *y, s); },
        ExprKind::DropTemps(y) => { lemma_sr_visit_finds(x, *y, s); },
        ExprKind::Cast(y, _) => { lemma_sr_visit_finds(x, *y, s); },
        ExprKind::MethodCall { receiver, args, .. } => {
            let a = sr_visit(*receiver, s);
            if visited_in_seq(x, args@) {
                lemma_sr_seq_finds(x, args@, a);
            } else {
                lemma_sr_visit_finds(x, *receiver, s);
                lemma_sr_seq_ext(args@, a);
                lemma_extends_contains(a, sr_seq(args@, a), x.span);
            }
        },
        ExprKind::Call { callee, args } => {
            let a = sr_visit(*callee, s);
            if visited_in_seq(x, args@) {
                lemma_sr_seq_finds(x, args@, a);
            } else {
                lemma_sr_visit_finds(x, *callee, s);
                lemma_sr_seq_ext(args@, a);
                lemma_extends_contains(a, sr_seq(args@, a), x.span);
            }
        },
        ExprKind::Block { stmts, tail } => {
            let a = sr_stmts(stmts@, s);
            match tail {
                Some(tl) => {
                    if visited_in(x, *tl) {
                        lemma_sr_visit_finds(x, *tl, a);
                    } else {
                        lemma_sr_stmts_finds(x, stmts@, s);
                        lemma_sr_visit_ext(*tl, a);
                        lemma_extends_contains(a, sr_visit(*tl, a), x.span);
                    }
                },
                None => {
                    lemma_sr_stmts_finds(x, stmts@, s);
                },
            }
        },
        ExprKind::If { cond, then, els } => {
            let a = sr_visit(*cond, s);
            let b = sr_visit(*then, a);
            let in_y = match els {
                Some(y) => visited_in(x, *y),
                None => false,
            };
            if !in_y {
                if visited_in(x, *then) {
                    lemma_sr_visit_finds(x, *then, a);
                } else {
                    lemma_sr_visit_finds(x, *cond, s);
                    lemma_sr_visit_ext(*then, a);
                    lemma_extends_contains(a, b, x.span);
                }
            }
            match els {
                Some(y) => {
                    if in_y {
                        lemma_sr_visit_finds(x, *y, b);
                    } else {
                        lemma_sr_visit_ext(*y, b);
                        lemma_extends_contains(b, sr_visit(*y, b), x.span);
                    }
                },
                None => {},
            }
        },
        ExprKind::Let { init, .. } => { lemma_sr_visit_finds(x, *init, s); },
        ExprKind::Other(cs) => {
            lemma_sr_seq_finds(x, cs@, s);
        },
        _ => {},
    }
}

/// A use of `sr25519_verify` that the walk reaches is among the spans it reports.
pub proof fn lemma_sr_seq_finds(x: Expr, es: Seq<Expr>, s: Seq<Span>)
    requires
        visited_in_seq(x, es),
        names_sr25519_verify(x),
    ensures
        sr_seq(es, s).contains(x.span),
    decreases es, 0nat,
{
    let p = es.subrange(0, es.len() - 1);
    let a = sr_seq(p, s);
    if visited_in(x, es[es.len() - 1]) {
        lemma_sr_visit_finds(x, es[es.len() - 1], a);
    } else {
        lemma_sr_seq_finds(x, p, s);
        lemma_sr_visit_ext(es[es.len() - 1], a);
        lemma_extends_contains(a, sr_visit(es[es.len() - 1], a), x.span);
    }
}

/// A use of `sr25519_verify` that the walk reaches is among the spans it reports.
pub proof fn lemma_sr_stmts_finds(x: Expr, ss: Seq<Stmt>, s: Seq<Span>)
    requires
        visited_in_stmts(x, ss),
        names_sr25519_verify(x),
    ensures
        sr_stmts(ss, s).contains(x.span),
    decreases ss, 0nat,
{
    let p = ss.subrange(0, ss.len() - 1);
    let a = sr_stmts(p, s);
    match ss[ss.len() - 1] {
        Stmt::Let { init, .. } => match init {
            Some(i) => {
                if visited_in(x, i) {
                    lemma_sr_visit_finds(x, i, a);
                } else {
                    lemma_sr_stmts_finds(x, p, s);
                    lemma_sr_visit_ext(i, a);
                    lemma_extends_contains(a, sr_visit(i, a), x.span);
                }
            },
            None => {
                lemma_sr_stmts_finds(x, p, s);
            },
        },
        Stmt::Expr(y) => {
            if visited_in(x, y) {
                lemma_sr_visit_finds(x, y, a);
            } else {
                lemma_sr_stmts_finds(x, p, s);
                lemma_sr_visit_ext(y, a);
                lemma_extends_contains(a, sr_visit(y, a), x.span);
            }
        },
        Stmt::Item => {
            lemma_sr_stmts_finds(x, p, s);
        },
    }
}

/// Every use of `sr25519_verify` in a function body is reported: each resolved path naming it
/// that the compiler's walk of the body reaches, in a `let` initializer as anywhere else, has
/// its span among the reported spans.
pub proof fn law_every_use_reported(body: Expr, x: Expr)
    requires
        visited_in(x, body),
        names_sr25519_verify(x),
    ensures
        sr_visit(body, Seq::empty()).contains(x.span),
{
    lemma_sr_visit_finds(x, body, Seq::empty());
}

} // verus!
