//! Structural equivalence of expressions, seeing through the local bindings of a body.
use vstd::prelude::*;
use std::collections::HashMap;
use crate::hir::{Expr, ExprKind, QPath, Res, Stmt};

verus! {

/// The bindings that a walk of `e` records into `m`: each `let` of a plain binding with an
/// initializer maps the binding's node to the initializer, a later `let` of the same node
/// replacing an earlier one. Closure bodies are not entered.
pub open spec fn locals_walk<'a>(e: &'a Expr, m: Map<u64, &'a Expr>) -> Map<u64, &'a Expr>
    decreases e, 0nat,
{
    match &e.kind {
        ExprKind::Lit(_) => m,
        ExprKind::Path(_) => m,
        ExprKind::Binary(_, l, r) => locals_walk(r, locals_walk(l, m)),
        ExprKind::AssignOp(_, l, r) => locals_walk(l, locals_walk(r, m)),
        ExprKind::Assign(l, r) => locals_walk(l, locals_walk(r, m)),
        ExprKind::Unary(_, x) => locals_walk(x, m),
        ExprKind::AddrOf(_, x) => locals_walk(x, m),
        ExprKind::DropTemps(x) => locals_walk(x, m),
        ExprKind::Cast(x, _) => locals_walk(x, m),
        ExprKind::MethodCall { receiver, args, .. } => locals_seq(args@, locals_walk(receiver, m)),
        ExprKind::Call { callee, args } => locals_seq(args@, locals_walk(callee, m)),
        ExprKind::Block { stmts, tail } => {
            let m1 = locals_stmts(stmts@, m);
            match tail {
                Some(t) => locals_walk(t, m1),
                None => m1,
            }
        },
        ExprKind::If { cond, then, els } => {
            let m1 = locals_walk(then, locals_walk(cond, m));
            match els {
                Some(x) => locals_walk(x, m1),
                None => m1,
            }
        },
        ExprKind::Let { init, .. } => locals_walk(init, m),
        ExprKind::Closure(_) => m,
        ExprKind::Other(cs) => locals_seq(cs@, m),
    }
}

/// [`locals_walk`] over a sequence of expressions, in order.
pub open spec fn locals_seq<'a>(es: Seq<Expr>, m: Map<u64, &'a Expr>) -> Map<u64, &'a Expr>
    decreases es, 0nat,
{
    if es.len() == 0 {
        m
    } else {
        locals_walk(&es[es.len() - 1], locals_seq(es.subrange(0, es.len() - 1), m))
    }
}

/// [`locals_walk`] over a block's statements, in order; a `let` records its binding before
/// its initializer is walked.
pub open spec fn locals_stmts<'a>(ss: Seq<Stmt>, m: Map<u64, &'a Expr>) -> Map<u64, &'a Expr>
    decreases ss, 0nat,
{
    if ss.len() == 0 {
        m
    } else {
        let m0 = locals_stmts(ss.subrange(0, ss.len() - 1), m);
        match &ss[ss.len() - 1] {
            Stmt::Let { pat_hir_id, binding, init } => match init {
                Some(i) => if binding is Some {
                    locals_walk(i, m0.insert(*pat_hir_id, i))
                } else {
                    locals_walk(i, m0)
                },
                None => m0,
            },
            Stmt::Expr(x) => locals_walk(x, m0),
            Stmt::Item => m0,
        }
    }
}

/// Records into `locals` the local bindings of the body whose value is `e`, as
/// [`locals_walk`] states.
pub fn collect_locals<'a>(body: &'a Expr, locals: &mut HashMap<u64, &'a Expr>)
    ensures
        final(locals)@ == locals_walk(body, old(locals)@),
{
    collect_expr(body, locals);
}

fn collect_expr<'a>(e: &'a Expr, locals: &mut HashMap<u64, &'a Expr>)
    ensures
        final(locals)@ == locals_walk(e, old(locals)@),
    decreases e, 0nat,
{
    match &e.kind {
        ExprKind::Lit(_) => {},
        ExprKind::Path(_) => {},
        ExprKind::Binary(_, l, r) => {
            collect_expr(l, locals);
            collect_expr(r, locals);
        },
        ExprKind::AssignOp(_, l, r) => {
            collect_expr(r, locals);
            collect_expr(l, locals);
        },
        ExprKind::Assign(l, r) => {
            collect_expr(r, locals);
            collect_expr(l, locals);
        },
        ExprKind::Unary(_, x) => collect_expr(x, locals),
        ExprKind::AddrOf(_, x) => collect_expr(x, locals),
        ExprKind::DropTemps(x) => collect_expr(x, locals),
        ExprKind::Cast(x, _) => collect_expr(x, locals),
        ExprKind::MethodCall { receiver, args, .. } => {
            collect_expr(receiver, locals);
            collect_exprs(args, locals);
        },
        ExprKind::Call { callee, args } => {
            collect_expr(callee, locals);
            collect_exprs(args, locals);
        },
        ExprKind::Block { stmts, tail } => {
            collect_stmts(stmts, locals);
            if let Some(t) = tail {
                collect_expr(t, locals);
            }
        },
        ExprKind::If { cond, then, els } => {
            collect_expr(cond, locals);
            collect_expr(then, locals);
            if let Some(x) = els {
                collect_expr(x, locals);
            }
        },
        ExprKind::Let { init, .. } => collect_expr(init, locals),
        ExprKind::Closure(_) => {},
        ExprKind::Other(cs) => collect_exprs(cs, locals),
    }
}

#[verifier::loop_isolation(false)]
fn collect_exprs<'a>(es: &'a Vec<Expr>, locals: &mut HashMap<u64, &'a Expr>)
    ensures
        final(locals)@ == locals_seq(es@, old(locals)@),
    decreases *es, 0nat,
{
    let ghost m0 = locals@;
    let mut i: usize = 0;
    while i < es.len()
        invariant
            i <= es@.len(),
            locals@ == locals_seq(es@.subrange(0, i as int), m0),
        decreases es@.len() - i,
    {
        proof {
            assert(decreases_to!(*es => es@));
            assert(decreases_to!(es@ => es@[i as int]));
            let p = es@.subrange(0, i + 1);
            assert(p.subrange(0, p.len() - 1) =~= es@.subrange(0, i as int));
        }
        collect_expr(&es[i], locals);
        i = i + 1;
    }
    assert(es@.subrange(0, es@.len() as int) =~= es@);
}

#[verifier::loop_isolation(false)]
fn collect_stmts<'a>(stmts: &'a Vec<Stmt>, locals: &mut HashMap<u64, &'a Expr>)
    ensures
        final(locals)@ == locals_stmts(stmts@, old(locals)@),
    decreases *stmts, 0nat,
{
    let ghost m0 = locals@;
    let mut i: usize = 0;
    while i < stmts.len()
        invariant
            i <= stmts@.len(),
            locals@ == locals_stmts(stmts@.subrange(0, i as int), m0),
        decreases stmts@.len() - i,
    {
        proof {
            let p = stmts@.subrange(0, i + 1);
            assert(p.subrange(0, p.len() - 1) =~= stmts@.subrange(0, i as int));
            assert(p[p.len() - 1] == stmts@[i as int]);
            assert(decreases_to!(*stmts => stmts@));
            assert(decreases_to!(stmts@ => stmts@[i as int]));
        }
        match &stmts[i] {
            Stmt::Let { pat_hir_id, binding, init } => {
                if let Some(x) = init {
                    proof {
                        assert(decreases_to!(stmts@[i as int] => stmts@[i as int]->Let_init));
                    }
                    if binding.is_some() {
                        locals.insert(*pat_hir_id, x);
                    }
                    collect_expr(x, locals);
                }
            },
            Stmt::Expr(x) => {
                collect_expr(x, locals);
            },
            Stmt::Item => {},
        }
        i = i + 1;
    }
    assert(stmts@.subrange(0, stmts@.len() as int) =~= stmts@);
}

/// The bound on how many pairs of bindings a comparison can pass through: the square of the
/// number of bindings.
pub open spec fn pair_bound(m: Map<u64, &Expr>) -> int {
    let n = m.dom().to_seq().len();
    (n * n) as int
}

/// The pairs of bindings a comparison is passing through: each names two bindings of `m`,
/// and none occurs twice.
pub open spec fn path_ok(m: Map<u64, &Expr>, path: Seq<(u64, u64)>) -> bool {
    &&& m.dom().finite()
    &&& path.no_duplicates()
    &&& forall|i: int| #![trigger path[i]] 0 <= i < path.len() ==> m.dom().contains(path[i].0) && m.dom().contains(path[i].1)
}

/// A path of pairs of bindings is no longer than [`pair_bound`].
pub proof fn lemma_path_bound(m: Map<u64, &Expr>, path: Seq<(u64, u64)>)
    requires
        path_ok(m, path),
    ensures
        path.len() <= pair_bound(m),
{
    let keys = m.dom().to_seq();
    m.dom().lemma_to_seq_to_set_id();
    let n = keys.len() as int;
    let all = Seq::new((n * n) as nat, |k: int| (keys[k / n], keys[k % n]));
    assert forall|x: (u64, u64)| path.to_set().contains(x) implies all.to_set().contains(x) by {
        let i = choose|i: int| 0 <= i < path.len() && path[i] == x;
        assert(path[i] == x);
        assert(keys.to_set().contains(x.0));
        assert(keys.to_set().contains(x.1));
        let a = choose|a: int| 0 <= a < keys.len() && keys[a] == x.0;
        let b = choose|b: int| 0 <= b < keys.len() && keys[b] == x.1;
        assert(0 <= a * n + b < n * n) by (nonlinear_arith)
            requires
                0 <= a < n,
                0 <= b < n,
        ;
        vstd::arithmetic::div_mod::lemma_fundamental_div_mod_converse(a * n + b, n, a, b);
        assert(all[a * n + b] == x);
    }
    path.unique_seq_to_set();
    all.lemma_cardinality_of_set();
    vstd::set_lib::lemma_len_subset(path.to_set(), all.to_set());
}

/// Adding a new pair of bindings to a path keeps it a path within [`pair_bound`].
pub proof fn lemma_path_push(m: Map<u64, &Expr>, path: Seq<(u64, u64)>, key: (u64, u64))
    requires
        path_ok(m, path),
        !path.contains(key),
        m.dom().contains(key.0),
        m.dom().contains(key.1),
    ensures
        path_ok(m, path.push(key)),
        path.len() + 1 <= pair_bound(m),
{
    let p = path.push(key);
    assert forall|i: int, j: int| 0 <= i < p.len() && 0 <= j < p.len() && i != j implies p[i] != p[j] by {
        if i < path.len() && j < path.len() {
        } else if i < path.len() {
            assert(path[i] == p[i]);
        } else {
            assert(path[j] == p[j]);
        }
    }
    assert forall|i: int| #![trigger p[i]] 0 <= i < p.len() implies m.dom().contains(p[i].0) && m.dom().contains(p[i].1) by {
        if i < path.len() {
            assert(p[i] == path[i]);
        }
    }
    lemma_path_bound(m, p);
}

/// Whether `e1` and `e2` are structurally equivalent, seeing through the bindings of `m`,
/// while passing through the pairs of bindings on `path`: the same node; equal literals;
/// paths to the same local, to locals bound to equivalent initializers (a pair of bindings
/// already on the path counts as not equivalent) or to the same definition; equal operators
/// over equivalent operands; casts to the same type node of equivalent operands; blocks with
/// equivalent tail expressions, or both without one. A temporary-scope wrapper or a block
/// with a tail expression on one side only is looked through.
pub open spec fn spec_equiv<'a>(m: Map<u64, &'a Expr>, path: Seq<(u64, u64)>, e1: &'a Expr, e2: &'a Expr) -> bool
    decreases pair_bound(m) - path.len(), e1, e2,
    when path_ok(m, path)
{
    if e1.hir_id == e2.hir_id {
        true
    } else {
        match (&e1.kind, &e2.kind) {
            (ExprKind::Lit(l1), ExprKind::Lit(l2)) => l1 == l2,
            (ExprKind::Path(p1), ExprKind::Path(p2)) => match (p1, p2) {
                (QPath::Resolved { res: r1, .. }, QPath::Resolved { res: r2, .. }) => match (r1, r2) {
                    (Res::Local(id1), Res::Local(id2)) => *id1 == *id2 || {
                        let key = (*id1, *id2);
                        if !path.contains(key) && m.dom().contains(*id1) && m.dom().contains(*id2) {
                            proof {
                                lemma_path_push(m, path, key);
                            }
                            spec_equiv(m, path.push(key), m[*id1], m[*id2])
                        } else {
                            false
                        }
                    },
                    _ => r1 == r2,
                },
                _ => false,
            },
            (ExprKind::Binary(o1, l1, r1), ExprKind::Binary(o2, l2, r2)) => o1 == o2 && spec_equiv(m, path, l1, l2)
                && spec_equiv(m, path, r1, r2),
            (ExprKind::Unary(o1, i1), ExprKind::Unary(o2, i2)) => o1 == o2 && spec_equiv(m, path, i1, i2),
            (ExprKind::Cast(i1, t1), ExprKind::Cast(i2, t2)) => t1 == t2 && spec_equiv(m, path, i1, i2),
            (ExprKind::DropTemps(i1), ExprKind::DropTemps(i2)) => spec_equiv(m, path, i1, i2),
            (ExprKind::Block { tail: t1, .. }, ExprKind::Block { tail: t2, .. }) => match (t1, t2) {
                (Some(a), Some(b)) => spec_equiv(m, path, a, b),
                (None, None) => true,
                _ => false,
            },
            (ExprKind::DropTemps(i), _) => spec_equiv(m, path, i, e2),
            (_, ExprKind::DropTemps(i)) => spec_equiv(m, path, e1, i),
            (ExprKind::Block { tail: Some(t), .. }, _) => spec_equiv(m, path, t, e2),
            (_, ExprKind::Block { tail: Some(t), .. }) => spec_equiv(m, path, e1, t),
            _ => false,
        }
    }
}

/// Compares expressions for structural equivalence, seeing through the local bindings of a
/// body.
pub struct ExprAnalyzer<'a> {
    pub locals: &'a HashMap<u64, &'a Expr>,
}

impl<'a> ExprAnalyzer<'a> {
    /// An analyzer over the bindings `locals`.
    pub fn new(locals: &'a HashMap<u64, &'a Expr>) -> (r: Self)
        ensures
            r.locals@ == locals@,
    {
        ExprAnalyzer { locals }
    }

    /// Whether two expressions are structurally equivalent, as [`spec_equiv`] states from an
    /// empty path.
    pub fn are_equivalent(&self, expr1: &'a Expr, expr2: &'a Expr) -> (r: bool)
        ensures
            r == spec_equiv(self.locals@, Seq::empty(), expr1, expr2),
    {
        let mut visited: Vec<(u64, u64)> = Vec::new();
        proof {
            assert(self.locals@.dom().finite());
            assert(visited@.no_duplicates());
        }
        self.are_equivalent_impl(expr1, expr2, &mut visited)
    }

    fn pair_on_path(visited: &Vec<(u64, u64)>, key: (u64, u64)) -> (r: bool)
        ensures
            r == visited@.contains(key),
    {
        let mut i: usize = 0;
        while i < visited.len()
            invariant
                i <= visited@.len(),
                forall|j: int| 0 <= j < i ==> visited@[j] != key,
            decreases visited@.len() - i,
        {
            if visited[i].0 == key.0 && visited[i].1 == key.1 {
                assert(visited@[i as int] == key);
                return true;
            }
            i = i + 1;
        }
        false
    }

    fn are_equivalent_impl(&self, expr1: &'a Expr, expr2: &'a Expr, visited: &mut Vec<(u64, u64)>) -> (r: bool)
        requires
            path_ok(self.locals@, old(visited)@),
        ensures
            final(visited)@ == old(visited)@,
            r == spec_equiv(self.locals@, old(visited)@, expr1, expr2),
        decreases pair_bound(self.locals@) - old(visited)@.len(), *expr1, *expr2,
    {
        proof {
            lemma_path_bound(self.locals@, visited@);
        }
        if expr1.hir_id == expr2.hir_id {
            return true;
        }
        match (&expr1.kind, &expr2.kind) {
            (ExprKind::Lit(l1), ExprKind::Lit(l2)) => *l1 == *l2,
            (ExprKind::Path(p1), ExprKind::Path(p2)) => self.are_paths_equiv(p1, p2, expr1, expr2, visited),
            (ExprKind::Binary(o1, l1, r1), ExprKind::Binary(o2, l2, r2)) => {
                *o1 == *o2 && self.are_equivalent_impl(l1, l2, visited) && self.are_equivalent_impl(r1, r2, visited)
            },
            (ExprKind::Unary(o1, i1), ExprKind::Unary(o2, i2)) => *o1 == *o2 && self.are_equivalent_impl(i1, i2, visited),
            (ExprKind::Cast(i1, t1), ExprKind::Cast(i2, t2)) => *t1 == *t2 && self.are_equivalent_impl(i1, i2, visited),
            (ExprKind::DropTemps(i1), ExprKind::DropTemps(i2)) => self.are_equivalent_impl(i1, i2, visited),
            (ExprKind::Block { tail: t1, .. }, ExprKind::Block { tail: t2, .. }) => match (t1, t2) {
                (Some(a), Some(b)) => self.are_equivalent_impl(a, b, visited),
                (None, None) => true,
                _ => false,
            },
            (ExprKind::DropTemps(i), _) => self.are_equivalent_impl(i, expr2, visited),
            (_, ExprKind::DropTemps(i)) => self.are_equivalent_impl(expr1, i, visited),
            (ExprKind::Block { tail: Some(t), .. }, _) => self.are_equivalent_impl(t, expr2, visited),
            (_, ExprKind::Block { tail: Some(t), .. }) => self.are_equivalent_impl(expr1, t, visited),
            _ => false,
        }
    }

    fn are_paths_equiv(
        &self,
        p1: &QPath,
        p2: &QPath,
        expr1: &'a Expr,
        expr2: &'a Expr,
        visited: &mut Vec<(u64, u64)>,
    ) -> (r: bool)
        requires
            path_ok(self.locals@, old(visited)@),
            expr1.hir_id != expr2.hir_id,
            expr1.kind == ExprKind::Path(*p1),
            expr2.kind == ExprKind::Path(*p2),
        ensures
            final(visited)@ == old(visited)@,
            r == spec_equiv(self.locals@, old(visited)@, expr1, expr2),
        decreases pair_bound(self.locals@) - old(visited)@.len(), *expr1, *expr2, 0nat,
    {
        match (p1, p2) {
            (QPath::Resolved { res: r1, .. }, QPath::Resolved { res: r2, .. }) => match (r1, r2) {
                (Res::Local(id1), Res::Local(id2)) => {
                    if *id1 == *id2 {
                        return true;
                    }
                    let key = (*id1, *id2);
                    if Self::pair_on_path(visited, key) {
                        return false;
                    }
                    match (self.locals.get(id1), self.locals.get(id2)) {
                        (Some(i1), Some(i2)) => {
                            proof {
                                lemma_path_push(self.locals@, visited@, key);
                            }
                            visited.push(key);
                            let result = self.are_equivalent_impl(*i1, *i2, visited);
                            visited.pop();
                            proof {
                                assert(visited@ =~= old(visited)@);
                            }
                            result
                        },
                        _ => false,
                    }
                },
                _ => *r1 == *r2,
            },
            _ => false,
        }
    }
}


/// The pairs of a path, each swapped.
pub open spec fn swap_path(path: Seq<(u64, u64)>) -> Seq<(u64, u64)> {
    Seq::new(path.len(), |i: int| (path[i].1, path[i].0))
}

proof fn lemma_swap_path(m: Map<u64, &Expr>, path: Seq<(u64, u64)>, key: (u64, u64))
    requires
        path_ok(m, path),
    ensures
        path_ok(m, swap_path(path)),
        swap_path(path).contains((key.1, key.0)) == path.contains(key),
        swap_path(path.push(key)) == swap_path(path).push((key.1, key.0)),
        swap_path(swap_path(path)) == path,
{
    let sp = swap_path(path);
    assert forall|i: int, j: int| 0 <= i < sp.len() && 0 <= j < sp.len() && i != j implies sp[i] != sp[j] by {
        assert(path[i] != path[j]);
    }
    assert forall|i: int| #![trigger sp[i]] 0 <= i < sp.len() implies m.dom().contains(sp[i].0) && m.dom().contains(sp[i].1) by {
        assert(path[i] == path[i]);
    }
    if path.contains(key) {
        let i = choose|i: int| 0 <= i < path.len() && path[i] == key;
        assert(sp[i] == (key.1, key.0));
    }
    if sp.contains((key.1, key.0)) {
        let i = choose|i: int| 0 <= i < sp.len() && sp[i] == (key.1, key.0);
        assert(path[i] == key);
    }
    assert(swap_path(path.push(key)) =~= sp.push((key.1, key.0)));
    assert(swap_path(sp) =~= path);
}

/// Structural equivalence is symmetric: comparing `e2` with `e1` while passing through the
/// swapped pairs of bindings gives the same answer as comparing `e1` with `e2`.
pub proof fn law_equiv_symmetric<'a>(m: Map<u64, &'a Expr>, path: Seq<(u64, u64)>, e1: &'a Expr, e2: &'a Expr)
    requires
        path_ok(m, path),
    ensures
        spec_equiv(m, path, e1, e2) == spec_equiv(m, swap_path(path), e2, e1),
    decreases pair_bound(m) - path.len(), e1, e2,
{
    lemma_swap_path(m, path, (0, 0));
    lemma_path_bound(m, path);
    let sp = swap_path(path);
    if e1.hir_id == e2.hir_id {
    } else {
        match (&e1.kind, &e2.kind) {
            (ExprKind::Lit(l1), ExprKind::Lit(l2)) => {},
            (ExprKind::Path(p1), ExprKind::Path(p2)) => match (p1, p2) {
                (QPath::Resolved { res: r1, .. }, QPath::Resolved { res: r2, .. }) => match (r1, r2) {
                    (Res::Local(id1), Res::Local(id2)) => {
                        let key = (*id1, *id2);
                        lemma_swap_path(m, path, key);
                        if *id1 != *id2 && !path.contains(key) && m.dom().contains(*id1) && m.dom().contains(*id2) {
                            lemma_path_push(m, path, key);
                            law_equiv_symmetric(m, path.push(key), m[*id1], m[*id2]);
                        }
                    },
                    _ => {},
                },
                _ => {},
            },
            (ExprKind::Binary(o1, l1, r1), ExprKind::Binary(o2, l2, r2)) => {
                law_equiv_symmetric(m, path, l1, l2);
                law_equiv_symmetric(m, path, r1, r2);
            },
            (ExprKind::Unary(o1, i1), ExprKind::Unary(o2, i2)) => {
                law_equiv_symmetric(m, path, i1, i2);
            },
            (ExprKind::Cast(i1, t1), ExprKind::Cast(i2, t2)) => {
                law_equiv_symmetric(m, path, i1, i2);
            },
            (ExprKind::DropTemps(i1), ExprKind::DropTemps(i2)) => {
                law_equiv_symmetric(m, path, i1, i2);
            },
            (ExprKind::Block { tail: t1, .. }, ExprKind::Block { tail: t2, .. }) => match (t1, t2) {
                (Some(a), Some(b)) => {
                    law_equiv_symmetric(m, path, a, b);
                },
                _ => {},
            },
            (ExprKind::DropTemps(i), _) => {
                law_equiv_symmetric(m, path, i, e2);
            },
            (_, ExprKind::DropTemps(i)) => {
                law_equiv_symmetric(m, path, e1, i);
            },
            (ExprKind::Block { tail: Some(t), .. }, _) => {
                law_equiv_symmetric(m, path, t, e2);
            },
            (_, ExprKind::Block { tail: Some(t), .. }) => {
                law_equiv_symmetric(m, path, e1, t);
            },
            _ => {},
        }
    }
}

/// An expression is equivalent to itself.
pub proof fn law_equiv_reflexive<'a>(m: Map<u64, &'a Expr>, path: Seq<(u64, u64)>, e: &'a Expr)
    requires
        path_ok(m, path),
    ensures
        spec_equiv(m, path, e, e),
{
}

/// Binary operations with different operators are never equivalent, and two literals are
/// equivalent exactly when they are the same literal; both for two distinct nodes (a node is
/// equivalent to anything that shares its identifier).
pub proof fn law_equiv_operators_and_literals<'a>(m: Map<u64, &'a Expr>, path: Seq<(u64, u64)>, e1: &'a Expr, e2: &'a Expr)
    requires
        path_ok(m, path),
        e1.hir_id != e2.hir_id,
    ensures
        e1.kind matches ExprKind::Binary(o1, _, _) ==> (e2.kind matches ExprKind::Binary(o2, _, _)
            ==> (o1 != o2 ==> !spec_equiv(m, path, e1, e2))),
        e1.kind matches ExprKind::Lit(l1) ==> (e2.kind matches ExprKind::Lit(l2)
            ==> (spec_equiv(m, path, e1, e2) <==> l1 == l2)),
{
}

} // verus!
