//! Delegate calls whose target is a function parameter: a caller could pass a malicious code
//! hash as the target.
use vstd::prelude::*;
use crate::hir::{Expr, ExprKind, Stmt, Span, QPath, Res, PathSegment, visited_in, visited_in_parts, visited_in_seq, visited_in_stmts};
use crate::text::str_eq;

verus! {

/// The lint pass.
pub struct DelegateCall;

/// The identifiers an argument stands for: its own, and, for a resolved path, the local it
/// names and each of its segments.
pub open spec fn arg_ids(arg: Expr) -> Seq<u64> {
    seq![arg.hir_id] + match arg.kind {
        ExprKind::Path(q) => match q {
            QPath::Resolved { res, segments, .. } => (match res {
                Res::Local(h) => seq![h],
                _ => Seq::<u64>::empty(),
            }) + segments@.map_values(|s: PathSegment| s.hir_id),
            _ => Seq::<u64>::empty(),
        },
        _ => Seq::<u64>::empty(),
    }
}

/// Some argument stands for the binding of a parameter.
pub open spec fn passes_param(params: Seq<Option<u64>>, args: Seq<Expr>) -> bool {
    exists|p: int, a: int| 0 <= p < params.len() && 0 <= a < args.len()
        && (#[trigger] params[p] matches Some(h) && arg_ids(#[trigger] args[a]).contains(h))
}

/// A call of `delegate` that passes a parameter is reported at its span.
pub open spec fn spec_check_delegate_call(e: Expr, params: Seq<Option<u64>>) -> Option<Span> {
    match e.kind {
        ExprKind::MethodCall { method, args, .. } => if method@ == "delegate"@ && passes_param(params, args@) {
            Some(e.span)
        } else {
            None
        },
        _ => None,
    }
}

#[verifier::loop_isolation(false)]
fn arg_has_id(arg: &Expr, h: u64) -> (r: bool)
    ensures
        r == arg_ids(*arg).contains(h),
{
    let ghost ids = arg_ids(*arg);
    if arg.hir_id == h {
        assert(ids[0] == h);
        return true;
    }
    if let ExprKind::Path(QPath::Resolved { res, segments, .. }) = &arg.kind {
        let ghost off: int = if res is Local { 2 } else { 1 };
        let ghost segs = segments@.map_values(|sg: PathSegment| sg.hir_id);
        let ghost pre = seq![arg.hir_id] + match res {
            Res::Local(x) => seq![*x],
            _ => Seq::<u64>::empty(),
        };
        assert(ids == pre + segs);
        assert(pre.len() == off);
        if let Res::Local(x) = res {
            if *x == h {
                assert(ids[1] == h);
                return true;
            }
        }
        let mut j: usize = 0;
        while j < segments.len()
            invariant
                j <= segments@.len(),
                ids.len() == off + segments@.len(),
                forall|k: int| 0 <= k < off + j ==> ids[k] != h,
            decreases segments@.len() - j,
        {
            assert(ids[off + j] == segs[j as int]);
            if segments[j].hir_id == h {
                assert(ids[off + j] == h);
                return true;
            }
            j = j + 1;
        }
        assert(!ids.contains(h)) by {
            if ids.contains(h) {
                let k = choose|k: int| 0 <= k < ids.len() && ids[k] == h;
                assert(ids[k] != h);
            }
        }
        return false;
    }
    assert(ids.len() == 1);
    assert(!ids.contains(h)) by {
        if ids.contains(h) {
            let k = choose|k: int| 0 <= k < ids.len() && ids[k] == h;
        }
    }
    false
}

/// The span of `e` when it is a call of `delegate` one of whose arguments stands for a
/// parameter binding of the body (`params` holds, for each parameter, its binding when its
/// pattern is one).
#[verifier::loop_isolation(false)]
pub fn check_delegate_call(e: &Expr, params: &Vec<Option<u64>>) -> (r: Option<Span>)
    ensures
        r == spec_check_delegate_call(*e, params@),
{
    proof {
        reveal_strlit("delegate");
    }
    if let ExprKind::MethodCall { method, args, .. } = &e.kind {
        if str_eq(method.as_str(), "delegate") {
            let mut p: usize = 0;
            while p < params.len()
                invariant
                    p <= params@.len(),
                    forall|q: int, a: int| 0 <= q < p && 0 <= a < args@.len()
                        ==> !(#[trigger] params@[q] matches Some(h) && arg_ids(#[trigger] args@[a]).contains(h)),
                decreases params@.len() - p,
            {
                if let Some(h) = params[p] {
                    let mut a: usize = 0;
                    while a < args.len()
                        invariant
                            a <= args@.len(),
                            params@[p as int] == Some(h),
                            forall|a2: int| 0 <= a2 < a ==> !arg_ids(#[trigger] args@[a2]).contains(h),
                        decreases args@.len() - a,
                    {
                        if arg_has_id(&args[a], h) {
                            assert(params@[p as int] matches Some(h2) && arg_ids(args@[a as int]).contains(h2));
                            return Some(e.span);
                        }
                        a = a + 1;
                    }
                }
                p = p + 1;
            }
            return None;
        }
    }
    None
}

/// The last delegate call in `e` and its parts that passes a parameter, else `last`.
pub open spec fn dc_visit(params: Seq<Option<u64>>, e: Expr, last: Option<Span>) -> Option<Span>
    decreases e, 1nat,
{
    let l1 = match spec_check_delegate_call(e, params) {
        Some(sp) => Some(sp),
        None => last,
    };
    dc_walk(params, e, l1)
}

/// The same over the parts of `e`, in the order of the compiler's walk.
pub open spec fn dc_walk(params: Seq<Option<u64>>, e: Expr, last: Option<Span>) -> Option<Span>
    decreases e, 0nat,
{
    match e.kind {
        ExprKind::Lit(_) => last,
        ExprKind::Path(_) => last,
        ExprKind::Binary(_, l, r) => dc_visit(params, *r, dc_visit(params, *l, last)),
        ExprKind::AssignOp(_, l, r) => dc_visit(params, *l, dc_visit(params, *r, last)),
        ExprKind::Assign(l, r) => dc_visit(params, *l, dc_visit(params, *r, last)),
        ExprKind::Unary(_, x) => dc_visit(params, *x, last),
        ExprKind::AddrOf(_, x) => dc_visit(params, *x, last),
        ExprKind::DropTemps(x) => dc_visit(params, *x, last),
        ExprKind::Cast(x, _) => dc_visit(params, *x, last),
        ExprKind::MethodCall { receiver, args, .. } => dc_seq(params, args@, dc_visit(params, *receiver, last)),
        ExprKind::Call { callee, args } => dc_seq(params, args@, dc_visit(params, *callee, last)),
        ExprKind::Block { stmts, tail } => {
            let l1 = dc_stmts(params, stmts@, last);
            match tail {
                Some(t) => dc_visit(params, *t, l1),
                None => l1,
            }
        },
        ExprKind::If { cond, then, els } => {
            let l1 = dc_visit(params, *then, dc_visit(params, *cond, last));
            match els {
                Some(x) => dc_visit(params, *x, l1),
                None => l1,
            }
        },
        ExprKind::Let { init, .. } => dc_visit(params, *init, last),
        ExprKind::Closure(_) => last,
        ExprKind::Other(cs) => dc_seq(params, cs@, last),
    }
}

/// The same over a sequence of expressions, in order.
pub open spec fn dc_seq(params: Seq<Option<u64>>, es: Seq<Expr>, last: Option<Span>) -> Option<Span>
    decreases es, 0nat,
{
    if es.len() == 0 {
        last
    } else {
        dc_visit(params, es[es.len() - 1], dc_seq(params, es.subrange(0, es.len() - 1), last))
    }
}

/// The same over a block's statements, in order.
pub open spec fn dc_stmts(params: Seq<Option<u64>>, ss: Seq<Stmt>, last: Option<Span>) -> Option<Span>
    decreases ss, 0nat,
{
    if ss.len() == 0 {
        last
    } else {
        let l0 = dc_stmts(params, ss.subrange(0, ss.len() - 1), last);
        match ss[ss.len() - 1] {
            Stmt::Let { init, .. } => match init {
                Some(i) => dc_visit(params, i, l0),
                None => l0,
            },
            Stmt::Expr(x) => dc_visit(params, x, l0),
            Stmt::Item => l0,
        }
    }
}

/// The walk that remembers the last vulnerable delegate call.
pub struct DelegateCallStorage {
    pub span: Option<Span>,
    pub has_vulnerable_delegate: bool,
    pub params: Vec<Option<u64>>,
}

impl DelegateCallStorage {
    /// Visits `e`, as [`dc_visit`] states.
    pub fn visit_expr(&mut self, e: &Expr)
        requires
            old(self).has_vulnerable_delegate == old(self).span is Some,
        ensures
            final(self).params == old(self).params,
            final(self).span == dc_visit(old(self).params@, *e, old(self).span),
            final(self).has_vulnerable_delegate == final(self).span is Some,
        decreases *e, 1nat,
    {
        if let Some(sp) = check_delegate_call(e, &self.params) {
            self.has_vulnerable_delegate = true;
            self.span = Some(sp);
        }
        self.walk_expr(e);
    }

    /// Visits the parts of `e`, as [`dc_walk`] states.
    pub fn walk_expr(&mut self, e: &Expr)
        requires
            old(self).has_vulnerable_delegate == old(self).span is Some,
        ensures
            final(self).params == old(self).params,
            final(self).span == dc_walk(old(self).params@, *e, old(self).span),
            final(self).has_vulnerable_delegate == final(self).span is Some,
        decreases *e, 0nat,
    {
        match &e.kind {
            ExprKind::Lit(_) => {},
            ExprKind::Path(_) => {},
            ExprKind::Binary(_, l, r) => {
                self.visit_expr(l);
                self.visit_expr(r);
            },
            ExprKind::AssignOp(_, l, r) => {
                self.visit_expr(r);
                self.visit_expr(l);
            },
            ExprKind::Assign(l, r) => {
                self.visit_expr(r);
                self.visit_expr(l);
            },
            ExprKind::Unary(_, x) => self.visit_expr(x),
            ExprKind::AddrOf(_, x) => self.visit_expr(x),
            ExprKind::DropTemps(x) => self.visit_expr(x),
            ExprKind::Cast(x, _) => self.visit_expr(x),
            ExprKind::MethodCall { receiver, args, .. } => {
                self.visit_expr(receiver);
                self.visit_exprs(args);
            },
            ExprKind::Call { callee, args } => {
                self.visit_expr(callee);
                self.visit_exprs(args);
            },
            ExprKind::Block { stmts, tail } => {
                self.visit_stmts(stmts);
                if let Some(t) = tail {
                    self.visit_expr(t);
                }
            },
            ExprKind::If { cond, then, els } => {
                self.visit_expr(cond);
                self.visit_expr(then);
                if let Some(x) = els {
                    self.visit_expr(x);
                }
            },
            ExprKind::Let { init, .. } => self.visit_expr(init),
            ExprKind::Closure(_) => {},
            ExprKind::Other(cs) => self.visit_exprs(cs),
        }
    }

    #[verifier::loop_isolation(false)]
    fn visit_exprs(&mut self, es: &Vec<Expr>)
        requires
            old(self).has_vulnerable_delegate == old(self).span is Some,
        ensures
            final(self).params == old(self).params,
            final(self).span == dc_seq(old(self).params@, es@, old(self).span),
            final(self).has_vulnerable_delegate == final(self).span is Some,
        decreases *es, 0nat,
    {
        let ghost l0 = self.span;
        let mut i: usize = 0;
        while i < es.len()
            invariant
                i <= es@.len(),
                self.params == old(self).params,
                self.has_vulnerable_delegate == self.span is Some,
                self.span == dc_seq(self.params@, es@.subrange(0, i as int), l0),
            decreases es@.len() - i,
        {
            proof {
                assert(decreases_to!(*es => es@));
                assert(decreases_to!(es@ => es@[i as int]));
                let p = es@.subrange(0, i + 1);
                assert(p.subrange(0, p.len() - 1) =~= es@.subrange(0, i as int));
            }
            self.visit_expr(&es[i]);
            i = i + 1;
        }
        assert(es@.subrange(0, es@.len() as int) =~= es@);
    }

    #[verifier::loop_isolation(false)]
    fn visit_stmts(&mut self, stmts: &Vec<Stmt>)
        requires
            old(self).has_vulnerable_delegate == old(self).span is Some,
        ensures
            final(self).params == old(self).params,
            final(self).span == dc_stmts(old(self).params@, stmts@, old(self).span),
            final(self).has_vulnerable_delegate == final(self).span is Some,
        decreases *stmts, 0nat,
    {
        let ghost l0 = self.span;
        let mut i: usize = 0;
        while i < stmts.len()
            invariant
                i <= stmts@.len(),
                self.params == old(self).params,
                self.has_vulnerable_delegate == self.span is Some,
                self.span == dc_stmts(self.params@, stmts@.subrange(0, i as int), l0),
            decreases stmts@.len() - i,
        {
            proof {
                let p = stmts@.subrange(0, i + 1);
                assert(p.subrange(0, p.len() - 1) =~= stmts@.subrange(0, i as int));
                assert(p[p.len() - 1] == stmts@[i as int]);
                assert(decreases_to!(*stmts => stmts@));
                assert(decreases_to!(stmts@ => stmts@[i as int]));
            }
            match &stmts[i] {
                Stmt::Let { init, .. } => {
                    if let Some(x) = init {
                        proof {
                            assert(decreases_to!(stmts@[i as int] => stmts@[i as int]->Let_init));
                        }
                        self.visit_expr(x);
                    }
                },
                Stmt::Expr(x) => {
                    self.visit_expr(x);
                },
                Stmt::Item => {},
            }
            i = i + 1;
        }
        assert(stmts@.subrange(0, stmts@.len() as int) =~= stmts@);
    }
}

impl DelegateCall {
    /// Where the lint reports in a function body: at the last delegate call, in walk order,
    /// that passes a parameter of the body; nothing when there is none. The body's root
    /// expression itself is not checked, only its parts.
    pub fn check_fn(&self, body: &Expr, params: Vec<Option<u64>>) -> (r: Option<Span>)
        ensures
            r == dc_walk(params@, *body, None),
    {
        let mut storage = DelegateCallStorage { span: None, has_vulnerable_delegate: false, params };
        storage.walk_expr(body);
        if storage.has_vulnerable_delegate {
            storage.span
        } else {
            None
        }
    }
}

/// A walk keeps a delegate call once one was found.
pub proof fn lemma_dc_visit_ext(params: Seq<Option<u64>>, e: Expr, s: Option<Span>)
    ensures
        (s is Some ==> dc_visit(params, e, s) is Some),
    decreases e, 1nat,
{
    let s1 = match spec_check_delegate_call(e, params) { Some(sp) => Some(sp), None => s };
    lemma_dc_walk_ext(params, e, s1);
}

/// A walk keeps a delegate call once one was found.
pub proof fn lemma_dc_walk_ext(params: Seq<Option<u64>>, e: Expr, s: Option<Span>)
    ensures
        (s is Some ==> dc_walk(params, e, s) is Some),
    decreases e, 0nat,
{
    match e.kind {
        ExprKind::Binary(_, l, r) => {
            let a = dc_visit(params, *l, s);
            lemma_dc_visit_ext(params, *l, s);
            lemma_dc_visit_ext(params, *r, a);
        },
        ExprKind::AssignOp(_, l, r) => {
            let a = dc_visit(params, *r, s);
            lemma_dc_visit_ext(params, *r, s);
            lemma_dc_visit_ext(params, *l, a);
        },
        ExprKind::Assign(l, r) => {
            let a = dc_visit(params, *r, s);
            lemma_dc_visit_ext(params, *r, s);
            lemma_dc_visit_ext(params, *l, a);
        },
        ExprKind::Unary(_, y) => lemma_dc_visit_ext(params, *y, s),
        ExprKind::AddrOf(_, y) => lemma_dc_visit_ext(params, *y, s),
        ExprKind::DropTemps(y) => lemma_dc_visit_ext(params, *y, s),
        ExprKind::Cast(y, _) => lemma_dc_visit_ext(params, *y, s),
        ExprKind::MethodCall { receiver, args, .. } => {
            let a = dc_visit(params, *receiver, s);
            lemma_dc_visit_ext(params, *receiver, s);
            lemma_dc_seq_ext(params, args@, a);
        },
        ExprKind::Call { callee, args } => {
            let a = dc_visit(params, *callee, s);
            lemma_dc_visit_ext(params, *callee, s);
            lemma_dc_seq_ext(params, args@, a);
        },
        ExprKind::Block { stmts, tail } => {
            let a = dc_stmts(params, stmts@, s);
            lemma_dc_stmts_ext(params, stmts@, s);
            match tail {
                Some(tl) => {
                    lemma_dc_visit_ext(params, *tl, a);
                },
                None => {},
            }
        },
        ExprKind::If { cond, then, els } => {
            let a = dc_visit(params, *cond, s);
            let b = dc_visit(params, *then, a);
            lemma_dc_visit_ext(params, *cond, s);
            lemma_dc_visit_ext(params, *then, a);
            match els {
                Some(y) => {
                    lemma_dc_visit_ext(params, *y, b);
                },
                None => {},
            }
        },
        ExprKind::Let { init, .. } => lemma_dc_visit_ext(params, *init, s),
        ExprKind::Other(cs) => lemma_dc_seq_ext(params, cs@, s),
        _ => {},
    }
}

/// A walk keeps a delegate call once one was found.
pub proof fn lemma_dc_seq_ext(params: Seq<Option<u64>>, es: Seq<Expr>, s: Option<Span>)
    ensures
        (s is Some ==> dc_seq(params, es, s) is Some),
    decreases es, 0nat,
{
    if es.len() > 0 {
        let p = es.subrange(0, es.len() - 1);
        let a = dc_seq(params, p, s);
        lemma_dc_seq_ext(params, p, s);
        lemma_dc_visit_ext(params, es[es.len() - 1], a);
    }
}

/// A walk keeps a delegate call once one was found.
pub proof fn lemma_dc_stmts_ext(params: Seq<Option<u64>>, ss: Seq<Stmt>, s: Option<Span>)
    ensures
        (s is Some ==> dc_stmts(params, ss, s) is Some),
    decreases ss, 0nat,
{
    if ss.len() > 0 {
        let p = ss.subrange(0, ss.len() - 1);
        let a = dc_stmts(params, p, s);
        lemma_dc_stmts_ext(params, p, s);
        match ss[ss.len() - 1] {
            Stmt::Let { init, .. } => match init {
                Some(i) => {
                    lemma_dc_visit_ext(params, i, a);
                },
                None => {},
            },
            Stmt::Expr(y) => {
                lemma_dc_visit_ext(params, y, a);
            },
            Stmt::Item => {},
        }
    }
}

/// A delegate call passing a parameter that the walk reaches is found.
pub proof fn lemma_dc_visit_finds(params: Seq<Option<u64>>, x: Expr, e: Expr, s: Option<Span>)
    requires
        visited_in(x, e),
        spec_check_delegate_call(x, params) is Some,
    ensures
        dc_visit(params, e, s) is Some,
    decreases e, 1nat,
{
    let s1 = match spec_check_delegate_call(e, params) { Some(sp) => Some(sp), None => s };
    if x == e {
        lemma_dc_walk_ext(params, e, s1);
    } else {
        lemma_dc_walk_finds(params, x, e, s1);
    }
}

/// A delegate call passing a parameter that the walk reaches is found.
pub proof fn lemma_dc_walk_finds(params: Seq<Option<u64>>, x: Expr, e: Expr, s: Option<Span>)
    requires
        visited_in_parts(x, e),
        spec_check_delegate_call(x, params) is Some,
    ensures
        dc_walk(params, e, s) is Some,
    decreases e, 0nat,
{
    match e.kind {
        ExprKind::Binary(_, l, r) => {
            let a = dc_visit(params, *l, s);
            if visited_in(x, *r) {
                lemma_dc_visit_finds(params, x, *r, a);
            } else {
                lemma_dc_visit_finds(params, x, *l, s);
                lemma_dc_visit_ext(params, *r, a);
            }
        },
        ExprKind::AssignOp(_, l, r) => {
            let a = dc_visit(params, *r, s);
            if visited_in(x, *l) {
                lemma_dc_visit_finds(params, x, *l, a);
            } else {
                lemma_dc_visit_finds(params, x, *r, s);
                lemma_dc_visit_ext(params, *l, a);
            }
        },
        ExprKind::Assign(l, r) => {
            let a = dc_visit(params, *r, s);
            if visited_in(x, *l) {
                lemma_dc_visit_finds(params, x, *l, a);
            } else {
                lemma_dc_visit_finds(params, x, *r, s);
                lemma_dc_visit_ext(params, *l, a);
            }
        },
        ExprKind::Unary(_, y) => { lemma_dc_visit_finds(params, x, *y, s); },
        ExprKind::AddrOf(_, y) => { lemma_dc_visit_finds(params, x, *y, s); },
        ExprKind::DropTemps(y) => { lemma_dc_visit_finds(params, x, *y, s); },
        ExprKind::Cast(y, _) => { lemma_dc_visit_finds(params, x, *y, s); },
        ExprKind::MethodCall { receiver, args, .. } => {
            let a = dc_visit(params, *receiver, s);
            if visited_in_seq(x, args@) {
                lemma_dc_seq_finds(params, x, args@, a);
            } else {
                lemma_dc_visit_finds(params, x, *receiver, s);
                lemma_dc_seq_ext(params, args@, a);
            }
        },
        ExprKind::Call { callee, args } => {
            let a = dc_visit(params, *callee, s);
            if visited_in_seq(x, args@) {
                lemma_dc_seq_finds(params, x, args@, a);
            } else {
                lemma_dc_visit_finds(params, x, *callee, s);
                lemma_dc_seq_ext(params, args@, a);
            }
        },
        ExprKind::Block { stmts, tail } => {
            let a = dc_stmts(params, stmts@, s);
            match tail {
                Some(tl) => {
                    if visited_in(x, *tl) {
                        lemma_dc_visit_finds(params, x, *tl, a);
                    } else {
                        lemma_dc_stmts_finds(params, x, stmts@, s);
                        lemma_dc_visit_ext(params, *tl, a);
                    }
                },
                None => {
                    lemma_dc_stmts_finds(params, x, stmts@, s);
                },
            }
        },
        ExprKind::If { cond, then, els } => {
            let a = dc_visit(params, *cond, s);
            let b = dc_visit(params, *then, a);
            let in_y = match els {
                Some(y) => visited_in(x, *y),
                None => false,
            };
            if !in_y {
                if visited_in(x, *then) {
                    lemma_dc_visit_finds(params, x, *then, a);
                } else {
                    lemma_dc_visit_finds(params, x, *cond, s);
                    lemma_dc_visit_ext(params, *then, a);
                }
            }
            match els {
                Some(y) => {
                    if in_y {
                        lemma_dc_visit_finds(params, x, *y, b);
                    } else {
                        lemma_dc_visit_ext(params, *y, b);
                    }
                },
                None => {},
            }
        },
        ExprKind::Let { init, .. } => { lemma_dc_visit_finds(params, x, *init, s); },
        ExprKind::Other(cs) => {
            lemma_dc_seq_finds(params, x, cs@, s);
        },
        _ => {},
    }
}

/// A delegate call passing a parameter that the walk reaches is found.
pub proof fn lemma_dc_seq_finds(params: Seq<Option<u64>>, x: Expr, es: Seq<Expr>, s: Option<Span>)
    requires
        visited_in_seq(x, es),
        spec_check_delegate_call(x, params) is Some,
    ensures
        dc_seq(params, es, s) is Some,
    decreases es, 0nat,
{
    let p = es.subrange(0, es.len() - 1);
    let a = dc_seq(params, p, s);
    if visited_in(x, es[es.len() - 1]) {
        lemma_dc_visit_finds(params, x, es[es.len() - 1], a);
    } else {
        lemma_dc_seq_finds(params, x, p, s);
        lemma_dc_visit_ext(params, es[es.len() - 1], a);
    }
}

/// A delegate call passing a parameter that the walk reaches is found.
pub proof fn lemma_dc_stmts_finds(params: Seq<Option<u64>>, x: Expr, ss: Seq<Stmt>, s: Option<Span>)
    requires
        visited_in_stmts(x, ss),
        spec_check_delegate_call(x, params) is Some,
    ensures
        dc_stmts(params, ss, s) is Some,
    decreases ss, 0nat,
{
    let p = ss.subrange(0, ss.len() - 1);
    let a = dc_stmts(params, p, s);
    match ss[ss.len() - 1] {
        Stmt::Let { init, .. } => match init {
            Some(i) => {
                if visited_in(x, i) {
                    lemma_dc_visit_finds(params, x, i, a);
                } else {
                    lemma_dc_stmts_finds(params, x, p, s);
                    lemma_dc_visit_ext(params, i, a);
                }
            },
            None => {
                lemma_dc_stmts_finds(params, x, p, s);
            },
        },
        Stmt::Expr(y) => {
            if visited_in(x, y) {
                lemma_dc_visit_finds(params, x, y, a);
            } else {
                lemma_dc_stmts_finds(params, x, p, s);
                lemma_dc_visit_ext(params, y, a);
            }
        },
        Stmt::Item => {
            lemma_dc_stmts_finds(params, x, p, s);
        },
    }
}

/// A delegate call that passes a parameter anywhere in a function body is reported: when the
/// compiler's walk of the body's parts reaches such a call (the receiver of a method call and
/// the initializer of a `let` included), the pass reports a span.
pub proof fn law_parameter_delegate_reported(params: Seq<Option<u64>>, body: Expr, x: Expr)
    requires
        visited_in_parts(x, body),
        spec_check_delegate_call(x, params) is Some,
    ensures
        dc_walk(params, body, None) is Some,
{
    lemma_dc_walk_finds(params, x, body, None);
}

} // verus!
