use vstd::prelude::*;
use std::collections::HashMap;
use crate::hir::{Span, Expr, ExprKind, Stmt, BinOpKind, visited_in, visited_in_parts, visited_in_seq, visited_in_stmts, method_calls_in, method_call_parts_in, method_calls_in_seq, method_calls_in_stmts};
use crate::text::str_eq;
use crate::mir::{Place, Operand, BinOp, Rvalue, StatementKind, Statement, TerminatorKind, BasicBlockData, all_targets, well_formed, local_tainted, has_tainted_local, has_tainted_place};

verus! {

/// The definitions of the checked and saturating division and multiplication methods
/// that a function body calls, as found by name in its source.
#[derive(Debug, Clone, Copy, PartialEq, Eq, Structural)]
pub struct DivDefIds {
    pub checked_div: Option<u64>,
    pub checked_mul: Option<u64>,
    pub saturating_div: Option<u64>,
    pub saturating_mul: Option<u64>,
}

/// The state of the traversal: the places holding the result of a division (directly or
/// through copies), the blocks visited so far (one flag per block), and the spans of the
/// multiplications reported.
pub struct DivState {
    pub tainted: Vec<Place>,
    pub visited: Vec<bool>,
    pub spans: Vec<Span>,
}

/// The mathematical value of a traversal state.
pub struct DivModel {
    pub tainted: Seq<Place>,
    pub visited: Seq<bool>,
    pub spans: Seq<Span>,
}

impl DivState {
    pub open spec fn model(&self) -> DivModel {
        DivModel { tainted: self.tainted@, visited: self.visited@, spans: self.spans@ }
    }
}

/// An operand reads a tainted local: then `dest` becomes tainted.
pub open spec fn spec_check_operand(op: Operand, tainted: Seq<Place>, dest: Place) -> (bool, Seq<Place>) {
    match op {
        Operand::Copy(p) | Operand::Move(p) => if local_tainted(tainted, p) {
            (true, tainted.push(dest))
        } else {
            (false, tainted)
        },
        Operand::Constant(_, _) => (false, tainted),
    }
}

/// The effect of one statement on the tainted places and the reported spans. A division
/// taints its destination; a multiplication (checked by the compiler or not) is reported,
/// and taints its destination, when an operand holds the result of a division.
pub open spec fn stmt_step(acc: (Seq<Place>, Seq<Span>), s: Statement) -> (Seq<Place>, Seq<Span>) {
    let (t, spans) = acc;
    match s.kind {
        StatementKind::Assign(dest, rv) => match rv {
            Rvalue::Ref(p) | Rvalue::AddressOf(p) | Rvalue::Len(p) | Rvalue::CopyForDeref(p) =>
                if local_tainted(t, p) { (t.push(dest), spans) } else { (t, spans) },
            Rvalue::Use(op) => (spec_check_operand(op, t, dest).1, spans),
            Rvalue::BinaryOp(op, o0, o1) => {
                if op == BinOp::Div {
                    (t.push(dest), spans)
                } else if op == BinOp::Mul || op == BinOp::MulUnchecked {
                    let (b0, t0) = spec_check_operand(o0, t, dest);
                    if b0 {
                        (t0, spans.push(s.span))
                    } else {
                        let (b1, t1) = spec_check_operand(o1, t0, dest);
                        (t1, if b1 { spans.push(s.span) } else { spans })
                    }
                } else {
                    (t, spans)
                }
            },
            Rvalue::Other => (t, spans),
        },
        StatementKind::Marker | StatementKind::Other => (t, spans),
    }
}

/// The effect of a sequence of statements, in order.
pub open spec fn stmts_fold(stmts: Seq<Statement>, acc: (Seq<Place>, Seq<Span>)) -> (Seq<Place>, Seq<Span>)
    decreases stmts.len(),
{
    if stmts.len() == 0 {
        acc
    } else {
        stmt_step(stmts_fold(stmts.drop_last(), acc), stmts.last())
    }
}

/// The effect of one argument of a call: a tainted argument taints the destination, and
/// the call is reported when it is a checked or saturating multiplication.
pub open spec fn arg_step(acc: (Seq<Place>, Seq<Span>), arg: Operand, dest: Place, fn_span: Span, is_mul: bool) -> (Seq<Place>, Seq<Span>) {
    let (t, spans) = acc;
    match arg {
        Operand::Copy(p) | Operand::Move(p) => if t.contains(p) {
            (t.push(dest), if is_mul { spans.push(fn_span) } else { spans })
        } else {
            (t, spans)
        },
        Operand::Constant(_, _) => (t, spans),
    }
}

/// The effect of a sequence of call arguments, in order.
pub open spec fn args_fold(args: Seq<Operand>, acc: (Seq<Place>, Seq<Span>), dest: Place, fn_span: Span, is_mul: bool) -> (Seq<Place>, Seq<Span>)
    decreases args.len(),
{
    if args.len() == 0 {
        acc
    } else {
        arg_step(args_fold(args.drop_last(), acc, dest, fn_span, is_mul), args.last(), dest, fn_span, is_mul)
    }
}

/// `id` is the definition of one of the two methods.
pub open spec fn is_one_of(a: Option<u64>, b: Option<u64>, id: u64) -> bool {
    a == Some(id) || b == Some(id)
}

/// The effect of a terminator: a call to a checked or saturating division taints its
/// destination; any other call taints its destination through its tainted arguments.
pub open spec fn term_effect(k: TerminatorKind, acc: (Seq<Place>, Seq<Span>), defs: DivDefIds) -> (Seq<Place>, Seq<Span>) {
    match k {
        TerminatorKind::Call { func, args, destination, fn_span, .. } => match func {
            Operand::Constant(Some(id), _) => if is_one_of(defs.checked_div, defs.saturating_div, id) {
                (acc.0.push(destination), acc.1)
            } else {
                args_fold(args@, acc, destination, fn_span, is_one_of(defs.checked_mul, defs.saturating_mul, id))
            },
            _ => acc,
        },
        _ => acc,
    }
}

/// The traversal from block `bb`, depth first, each block at most once, with `fuel`
/// bounding the depth.
pub open spec fn nav(bbs: Seq<BasicBlockData>, defs: DivDefIds, bb: usize, m: DivModel, fuel: nat) -> DivModel
    decreases fuel, 0nat,
{
    if fuel == 0 || m.visited[bb as int] {
        m
    } else {
        let visited = m.visited.update(bb as int, true);
        let data = bbs[bb as int];
        let (t, s) = stmts_fold(data.statements@, (m.tainted, m.spans));
        match data.terminator {
            None => DivModel { tainted: t, visited, spans: s },
            Some(term) => {
                let (t2, s2) = term_effect(term.kind, (t, s), defs);
                nav_seq(bbs, defs, all_targets(term.kind), DivModel { tainted: t2, visited, spans: s2 }, (fuel - 1) as nat)
            },
        }
    }
}

/// The traversals from each of the blocks `ts`, in order, threading the state.
pub open spec fn nav_seq(bbs: Seq<BasicBlockData>, defs: DivDefIds, ts: Seq<usize>, m: DivModel, fuel: nat) -> DivModel
    decreases fuel, ts.len() + 1,
{
    if ts.len() == 0 {
        m
    } else {
        nav_seq(bbs, defs, ts.subrange(1, ts.len() as int), nav(bbs, defs, ts[0], m, fuel), fuel)
    }
}

/// The number of blocks not yet visited.
pub open spec fn count_unvisited(v: Seq<bool>) -> nat
    decreases v.len(),
{
    if v.len() == 0 {
        0
    } else {
        count_unvisited(v.drop_last()) + if v.last() { 0nat } else { 1nat }
    }
}

proof fn lemma_count_mark(v: Seq<bool>, i: int)
    requires
        0 <= i < v.len(),
        !v[i],
    ensures
        count_unvisited(v.update(i, true)) + 1 == count_unvisited(v),
    decreases v.len(),
{
    if i == v.len() - 1 {
        assert(v.update(i, true).drop_last() =~= v.drop_last());
    } else {
        lemma_count_mark(v.drop_last(), i);
        assert(v.update(i, true).drop_last() =~= v.drop_last().update(i, true));
    }
}

proof fn lemma_count_monotone(a: Seq<bool>, b: Seq<bool>)
    requires
        a.len() == b.len(),
        forall|k: int| 0 <= k < a.len() && a[k] ==> b[k],
    ensures
        count_unvisited(b) <= count_unvisited(a),
    decreases a.len(),
{
    if a.len() > 0 {
        lemma_count_monotone(a.drop_last(), b.drop_last());
    }
}

fn check_operand(operand: Operand, tainted: &mut Vec<Place>, place_to_taint: Place) -> (r: bool)
    ensures
        (r, final(tainted)@) == spec_check_operand(operand, old(tainted)@, place_to_taint),
{
    match operand {
        Operand::Copy(p) | Operand::Move(p) => {
            if has_tainted_local(tainted, p) {
                tainted.push(place_to_taint);
                true
            } else {
                false
            }
        },
        Operand::Constant(_, _) => false,
    }
}

fn apply_statements(stmts: &Vec<Statement>, tainted: &mut Vec<Place>, spans: &mut Vec<Span>)
    ensures
        (final(tainted)@, final(spans)@) == stmts_fold(stmts@, (old(tainted)@, old(spans)@)),
{
    let ghost t0 = tainted@;
    let ghost s0 = spans@;
    let mut i: usize = 0;
    while i < stmts.len()
        invariant
            i <= stmts@.len(),
            (tainted@, spans@) == stmts_fold(stmts@.subrange(0, i as int), (t0, s0)),
        decreases stmts@.len() - i,
    {
        let statement = stmts[i];
        assert(stmts@.subrange(0, i + 1).drop_last() =~= stmts@.subrange(0, i as int));
        if let StatementKind::Assign(dest, rv) = statement.kind {
            match rv {
                Rvalue::Ref(p) | Rvalue::AddressOf(p) | Rvalue::Len(p) | Rvalue::CopyForDeref(p) => {
                    if has_tainted_local(tainted, p) {
                        tainted.push(dest);
                    }
                },
                Rvalue::Use(op) => {
                    check_operand(op, tainted, dest);
                },
                Rvalue::BinaryOp(op, o0, o1) => {
                    if op == BinOp::Div {
                        tainted.push(dest);
                    } else if (op == BinOp::Mul || op == BinOp::MulUnchecked) && (check_operand(o0, tainted, dest) || check_operand(o1, tainted, dest)) {
                        spans.push(statement.span);
                    }
                },
                Rvalue::Other => {},
            }
        }
        i = i + 1;
    }
    assert(stmts@.subrange(0, stmts@.len() as int) =~= stmts@);
}

fn apply_call_args(args: &Vec<Operand>, dest: Place, fn_span: Span, is_mul: bool, tainted: &mut Vec<Place>, spans: &mut Vec<Span>)
    ensures
        (final(tainted)@, final(spans)@) == args_fold(args@, (old(tainted)@, old(spans)@), dest, fn_span, is_mul),
{
    let ghost t0 = tainted@;
    let ghost s0 = spans@;
    let mut i: usize = 0;
    while i < args.len()
        invariant
            i <= args@.len(),
            (tainted@, spans@) == args_fold(args@.subrange(0, i as int), (t0, s0), dest, fn_span, is_mul),
        decreases args@.len() - i,
    {
        assert(args@.subrange(0, i + 1).drop_last() =~= args@.subrange(0, i as int));
        match args[i] {
            Operand::Copy(p) | Operand::Move(p) => {
                if has_tainted_place(tainted, p) {
                    tainted.push(dest);
                    if is_mul {
                        spans.push(fn_span);
                    }
                }
            },
            Operand::Constant(_, _) => {},
        }
        i = i + 1;
    }
    assert(args@.subrange(0, args@.len() as int) =~= args@);
}

fn matches_def(d: Option<u64>, id: u64) -> (r: bool)
    ensures
        r == (d == Some(id)),
{
    match d {
        Some(f) => f == id,
        None => false,
    }
}

fn navigate_rec(bb: usize, bbs: &Vec<BasicBlockData>, def_ids: &DivDefIds, st: &mut DivState, Ghost(fuel): Ghost<nat>)
    requires
        bb < bbs@.len(),
        well_formed(bbs@),
        old(st).visited@.len() == bbs@.len(),
        fuel > count_unvisited(old(st).visited@),
    ensures
        final(st).model() == nav(bbs@, *def_ids, bb, old(st).model(), fuel),
        final(st).visited@.len() == bbs@.len(),
        forall|k: int| 0 <= k < bbs@.len() && old(st).visited@[k] ==> final(st).visited@[k],
    decreases fuel,
{
    if st.visited[bb] {
        return;
    }
    let ghost m0 = st.model();
    proof {
        lemma_count_mark(st.visited@, bb as int);
    }
    st.visited.set(bb, true);
    let data = &bbs[bb];
    apply_statements(&data.statements, &mut st.tainted, &mut st.spans);
    match &data.terminator {
        None => {
            assert(st.visited@ == m0.visited.update(bb as int, true));
            assert(st.model() == nav(bbs@, *def_ids, bb, m0, fuel));
        },
        Some(term) => {
            if let TerminatorKind::Call { func: Operand::Constant(Some(id), _), args, destination, fn_span, .. } = &term.kind {
                if matches_def(def_ids.checked_div, *id) || matches_def(def_ids.saturating_div, *id) {
                    st.tainted.push(*destination);
                } else {
                    let is_mul = matches_def(def_ids.checked_mul, *id) || matches_def(def_ids.saturating_mul, *id);
                    apply_call_args(args, *destination, *fn_span, is_mul, &mut st.tainted, &mut st.spans);
                }
            }
            let targets = successors(&term.kind);
            let ghost mid = st.model();
            let ghost v1 = st.visited@;
            proof {
                let (t, s) = stmts_fold(data.statements@, (m0.tainted, m0.spans));
                assert(v1 == m0.visited.update(bb as int, true));
                assert((mid.tainted, mid.spans) == term_effect(term.kind, (t, s), *def_ids));
                assert(nav(bbs@, *def_ids, bb, m0, fuel) == nav_seq(bbs@, *def_ids, all_targets(term.kind), mid, (fuel - 1) as nat));
                assert(targets@.subrange(0, targets@.len() as int) =~= targets@);
            }
            let mut i: usize = 0;
            while i < targets.len()
                invariant
                    i <= targets@.len(),
                    targets@ == all_targets(term.kind),
                    term == bbs@[bb as int].terminator->0,
                    bbs@[bb as int].terminator is Some,
                    bb < bbs@.len(),
                    well_formed(bbs@),
                    fuel > 0,
                    v1.len() == bbs@.len(),
                    count_unvisited(v1) < fuel - 1,
                    st.visited@.len() == bbs@.len(),
                    forall|k: int| 0 <= k < bbs@.len() && v1[k] ==> st.visited@[k],
                    nav_seq(bbs@, *def_ids, targets@, mid, (fuel - 1) as nat)
                        == nav_seq(bbs@, *def_ids, targets@.subrange(i as int, targets@.len() as int), st.model(), (fuel - 1) as nat),
                decreases targets@.len() - i,
            {
                let ghost ts = targets@.subrange(i as int, targets@.len() as int);
                assert(ts.subrange(1, ts.len() as int) =~= targets@.subrange(i + 1, targets@.len() as int));
                assert(all_targets(bbs@[bb as int].terminator->0.kind)[i as int] < bbs@.len());
                proof {
                    lemma_count_monotone(v1, st.visited@);
                }
                navigate_rec(targets[i], bbs, def_ids, st, Ghost((fuel - 1) as nat));
                i = i + 1;
            }
            assert(targets@.subrange(targets@.len() as int, targets@.len() as int) =~= Seq::<usize>::empty());
            assert(st.model() == nav(bbs@, *def_ids, bb, m0, fuel));
            assert forall|k: int| 0 <= k < bbs@.len() && m0.visited[k] implies st.visited@[k] by {
                assert(v1[k]);
            }
        },
    }
}

/// The block targets that the traversal follows, in order.
fn successors(k: &TerminatorKind) -> (r: Vec<usize>)
    ensures
        r@ == all_targets(*k),
{
    match k {
        TerminatorKind::Call { target, .. } => match target {
            Some(t) => vec![*t],
            None => Vec::new(),
        },
        TerminatorKind::SwitchInt { targets, .. } => targets.clone(),
        TerminatorKind::Goto { target } => vec![*target],
        TerminatorKind::Drop { target } => vec![*target],
        TerminatorKind::Assert { target } => vec![*target],
        TerminatorKind::Yield { resume, drop } => match drop {
            Some(d) => vec![*resume, *d],
            None => vec![*resume],
        },
        TerminatorKind::FalseEdge { real_target, imaginary_target } => vec![*real_target, *imaginary_target],
        TerminatorKind::FalseUnwind { real_target } => vec![*real_target],
        TerminatorKind::InlineAsm { targets } => targets.clone(),
        TerminatorKind::Other => Vec::new(),
    }
}

/// Walks the body depth first from block `bb`, visiting each block once, tracking the
/// places that hold the result of a division and reporting the multiplications that
/// may use one.
pub fn navigate_trough_basicblocks(
    bb: usize,
    bbs: &Vec<BasicBlockData>,
    def_ids: &DivDefIds,
    tainted_places: &mut Vec<Place>,
    visited_bbs: &mut Vec<bool>,
    spans: &mut Vec<Span>,
)
    requires
        bb < bbs@.len(),
        well_formed(bbs@),
        old(visited_bbs)@.len() == bbs@.len(),
    ensures
        (DivModel { tainted: final(tainted_places)@, visited: final(visited_bbs)@, spans: final(spans)@ })
            == nav(bbs@, *def_ids, bb, DivModel { tainted: old(tainted_places)@, visited: old(visited_bbs)@, spans: old(spans)@ },
                count_unvisited(old(visited_bbs)@) + 1),
{
    let mut st = DivState { tainted: Vec::new(), visited: Vec::new(), spans: Vec::new() };
    std::mem::swap(&mut st.tainted, tainted_places);
    std::mem::swap(&mut st.visited, visited_bbs);
    std::mem::swap(&mut st.spans, spans);
    let ghost fuel = count_unvisited(st.visited@) + 1;
    navigate_rec(bb, bbs, def_ids, &mut st, Ghost(fuel));
    *tainted_places = st.tainted;
    *visited_bbs = st.visited;
    *spans = st.spans;
}


/// The expression is a division.
pub open spec fn is_div(e: Expr) -> bool {
    match e.kind {
        ExprKind::Binary(op, _, _) => op == BinOpKind::Div,
        _ => false,
    }
}

/// Visiting `e`: its own effect, then its parts.
pub open spec fn divs_visit(e: Expr, s: Seq<Span>) -> Seq<Span>
    decreases e, 1nat,
{
    divs_walk(e, if is_div(e) { s.push(e.span) } else { s })
}

/// Visiting the parts of `e` in the order of the compiler's walk; closure bodies are not
/// entered.
pub open spec fn divs_walk(e: Expr, s: Seq<Span>) -> Seq<Span>
    decreases e, 0nat,
{
    match e.kind {
        ExprKind::Lit(_) => s,
        ExprKind::Path(_) => s,
        ExprKind::Binary(_, l, r) => divs_visit(*r, divs_visit(*l, s)),
        ExprKind::AssignOp(_, l, r) => divs_visit(*l, divs_visit(*r, s)),
        ExprKind::Assign(l, r) => divs_visit(*l, divs_visit(*r, s)),
        ExprKind::Unary(_, x) => divs_visit(*x, s),
        ExprKind::AddrOf(_, x) => divs_visit(*x, s),
        ExprKind::DropTemps(x) => divs_visit(*x, s),
        ExprKind::Cast(x, _) => divs_visit(*x, s),
        ExprKind::MethodCall { receiver, args, .. } => divs_seq(args@, divs_visit(*receiver, s)),
        ExprKind::Call { callee, args } => divs_seq(args@, divs_visit(*callee, s)),
        ExprKind::Block { stmts, tail } => {
            let s1 = divs_stmts(stmts@, s);
            match tail {
                Some(t) => divs_visit(*t, s1),
                None => s1,
            }
        },
        ExprKind::If { cond, then, els } => {
            let s1 = divs_visit(*then, divs_visit(*cond, s));
            match els {
                Some(x) => divs_visit(*x, s1),
                None => s1,
            }
        },
        ExprKind::Let { init, .. } => divs_visit(*init, s),
        ExprKind::Closure(_) => s,
        ExprKind::Other(cs) => divs_seq(cs@, s),
    }
}

/// Visiting a sequence of expressions in order.
pub open spec fn divs_seq(es: Seq<Expr>, s: Seq<Span>) -> Seq<Span>
    decreases es, 0nat,
{
    if es.len() == 0 {
        s
    } else {
        divs_visit(es[es.len() - 1], divs_seq(es.subrange(0, es.len() - 1), s))
    }
}

/// Visiting a block's statements in order.
pub open spec fn divs_stmts(ss: Seq<Stmt>, s: Seq<Span>) -> Seq<Span>
    decreases ss, 0nat,
{
    if ss.len() == 0 {
        s
    } else {
        let s0 = divs_stmts(ss.subrange(0, ss.len() - 1), s);
        match ss[ss.len() - 1] {
            Stmt::Let { init, .. } => match init {
                Some(i) => divs_visit(i, s0),
                None => s0,
            },
            Stmt::Expr(x) => divs_visit(x, s0),
            Stmt::Item => s0,
        }
    }
}

fn divs_visit_exec(e: &Expr, acc: &mut Vec<Span>)
    ensures
        final(acc)@ == divs_visit(*e, old(acc)@),
    decreases *e, 1nat,
{
    if let ExprKind::Binary(op, _, _) = &e.kind {
        if *op == BinOpKind::Div {
            acc.push(e.span);
        }
    }
    divs_walk_exec(e, acc);
}

fn divs_walk_exec(e: &Expr, acc: &mut Vec<Span>)
    ensures
        final(acc)@ == divs_walk(*e, old(acc)@),
    decreases *e, 0nat,
{
    match &e.kind {
        ExprKind::Lit(_) => {},
        ExprKind::Path(_) => {},
        ExprKind::Binary(_, l, r) => {
            divs_visit_exec(l, acc);
            divs_visit_exec(r, acc);
        },
        ExprKind::AssignOp(_, l, r) => {
            divs_visit_exec(r, acc);
            divs_visit_exec(l, acc);
        },
        ExprKind::Assign(l, r) => {
            divs_visit_exec(r, acc);
            divs_visit_exec(l, acc);
        },
        ExprKind::Unary(_, x) => divs_visit_exec(x, acc),
        ExprKind::AddrOf(_, x) => divs_visit_exec(x, acc),
        ExprKind::DropTemps(x) => divs_visit_exec(x, acc),
        ExprKind::Cast(x, _) => divs_visit_exec(x, acc),
        ExprKind::MethodCall { receiver, args, .. } => {
            divs_visit_exec(receiver, acc);
            divs_seq_exec(args, acc);
        },
        ExprKind::Call { callee, args } => {
            divs_visit_exec(callee, acc);
            divs_seq_exec(args, acc);
        },
        ExprKind::Block { stmts, tail } => {
            divs_stmts_exec(stmts, acc);
            if let Some(t) = tail {
                divs_visit_exec(t, acc);
            }
        },
        ExprKind::If { cond, then, els } => {
            divs_visit_exec(cond, acc);
            divs_visit_exec(then, acc);
            if let Some(x) = els {
                divs_visit_exec(x, acc);
            }
        },
        ExprKind::Let { init, .. } => divs_visit_exec(init, acc),
        ExprKind::Closure(_) => {},
        ExprKind::Other(cs) => divs_seq_exec(cs, acc),
    }
}

#[verifier::loop_isolation(false)]
fn divs_seq_exec(es: &Vec<Expr>, acc: &mut Vec<Span>)
    ensures
        final(acc)@ == divs_seq(es@, old(acc)@),
    decreases *es, 0nat,
{
    let ghost s0 = acc@;
    let mut i: usize = 0;
    while i < es.len()
        invariant
            i <= es@.len(),
            acc@ == divs_seq(es@.subrange(0, i as int), s0),
        decreases es@.len() - i,
    {
        proof {
            assert(decreases_to!(*es => es@));
            assert(decreases_to!(es@ => es@[i as int]));
            let p = es@.subrange(0, i + 1);
            assert(p.subrange(0, p.len() - 1) =~= es@.subrange(0, i as int));
        }
        divs_visit_exec(&es[i], acc);
        i = i + 1;
    }
    assert(es@.subrange(0, es@.len() as int) =~= es@);
}

#[verifier::loop_isolation(false)]
fn divs_stmts_exec(stmts: &Vec<Stmt>, acc: &mut Vec<Span>)
    ensures
        final(acc)@ == divs_stmts(stmts@, old(acc)@),
    decreases *stmts, 0nat,
{
    let ghost s0 = acc@;
    let mut i: usize = 0;
    while i < stmts.len()
        invariant
            i <= stmts@.len(),
            acc@ == divs_stmts(stmts@.subrange(0, i as int), s0),
        decreases stmts@.len() - i,
    {
        proof {
            let p = stmts@.subrange(0, i + 1);
            assert(p.subrange(0, p.len() - 1) =~= stmts@.subrange(0, i as int));
            assert(p[p.len() - 1] == stmts@[i as int]);
            assert(decreases_to!(*stmts => stmts@));
            assert(decreases_to!(stmts@ => stmts@[i as int]));
        }
        match &stmts[i] {
            Stmt::Let { init, .. } => {
                if let Some(x) = init {
                    proof {
                        assert(decreases_to!(stmts@[i as int] => stmts@[i as int]->Let_init));
                    }
                    divs_visit_exec(x, acc);
                }
            },
            Stmt::Expr(x) => {
                divs_visit_exec(x, acc);
            },
            Stmt::Item => {},
        }
        i = i + 1;
    }
    assert(stmts@.subrange(0, stmts@.len() as int) =~= stmts@);
}

/// The spans of the divisions inside `e`, its parts walked in order; `e` itself is not
/// counted.
pub fn get_divisions_inside_expr(e: &Expr) -> (r: Vec<Span>)
    ensures
        r@ == divs_walk(*e, seq![]),
{
    let mut r: Vec<Span> = Vec::new();
    divs_walk_exec(e, &mut r);
    r
}

/// The effect of one expression on the definitions found: a call of a checked or saturating
/// division or multiplication method records the method's definition, or none when it has
/// none.
pub open spec fn def_finder_effect(defs: Map<u64, u64>, e: Expr, s: DivDefIds) -> DivDefIds {
    match e.kind {
        ExprKind::MethodCall { method, .. } => {
            let d = if defs.dom().contains(e.hir_id) { Some(defs[e.hir_id]) } else { None };
            if method@ == "checked_div"@ {
                DivDefIds { checked_div: d, ..s }
            } else if method@ == "checked_mul"@ {
                DivDefIds { checked_mul: d, ..s }
            } else if method@ == "saturating_mul"@ {
                DivDefIds { saturating_mul: d, ..s }
            } else if method@ == "saturating_div"@ {
                DivDefIds { saturating_div: d, ..s }
            } else {
                s
            }
        },
        _ => s,
    }
}

/// Visiting `e`: its own effect, then its parts.
pub open spec fn def_finder_visit(defs: Map<u64, u64>, e: Expr, s: DivDefIds) -> DivDefIds
    decreases e, 1nat,
{
    def_finder_walk(defs, e, def_finder_effect(defs, e, s))
}

/// Visiting the parts of `e` in the order of the compiler's walk; closure bodies are not
/// entered.
pub open spec fn def_finder_walk(defs: Map<u64, u64>, e: Expr, s: DivDefIds) -> DivDefIds
    decreases e, 0nat,
{
    match e.kind {
        ExprKind::Lit(_) => s,
        ExprKind::Path(_) => s,
        ExprKind::Binary(_, l, r) => def_finder_visit(defs, *r, def_finder_visit(defs, *l, s)),
        ExprKind::AssignOp(_, l, r) => def_finder_visit(defs, *l, def_finder_visit(defs, *r, s)),
        ExprKind::Assign(l, r) => def_finder_visit(defs, *l, def_finder_visit(defs, *r, s)),
        ExprKind::Unary(_, x) => def_finder_visit(defs, *x, s),
        ExprKind::AddrOf(_, x) => def_finder_visit(defs, *x, s),
        ExprKind::DropTemps(x) => def_finder_visit(defs, *x, s),
        ExprKind::Cast(x, _) => def_finder_visit(defs, *x, s),
        ExprKind::MethodCall { receiver, args, .. } => def_finder_seq(defs, args@, def_finder_visit(defs, *receiver, s)),
        ExprKind::Call { callee, args } => def_finder_seq(defs, args@, def_finder_visit(defs, *callee, s)),
        ExprKind::Block { stmts, tail } => {
            let s1 = def_finder_stmts(defs, stmts@, s);
            match tail {
                Some(t) => def_finder_visit(defs, *t, s1),
                None => s1,
            }
        },
        ExprKind::If { cond, then, els } => {
            let s1 = def_finder_visit(defs, *then, def_finder_visit(defs, *cond, s));
            match els {
                Some(x) => def_finder_visit(defs, *x, s1),
                None => s1,
            }
        },
        ExprKind::Let { init, .. } => def_finder_visit(defs, *init, s),
        ExprKind::Closure(_) => s,
        ExprKind::Other(cs) => def_finder_seq(defs, cs@, s),
    }
}

/// Visiting a sequence of expressions in order.
pub open spec fn def_finder_seq(defs: Map<u64, u64>, es: Seq<Expr>, s: DivDefIds) -> DivDefIds
    decreases es, 0nat,
{
    if es.len() == 0 {
        s
    } else {
        def_finder_visit(defs, es[es.len() - 1], def_finder_seq(defs, es.subrange(0, es.len() - 1), s))
    }
}

/// Visiting a block's statements in order.
pub open spec fn def_finder_stmts(defs: Map<u64, u64>, ss: Seq<Stmt>, s: DivDefIds) -> DivDefIds
    decreases ss, 0nat,
{
    if ss.len() == 0 {
        s
    } else {
        let s0 = def_finder_stmts(defs, ss.subrange(0, ss.len() - 1), s);
        match ss[ss.len() - 1] {
            Stmt::Let { init, .. } => match init {
                Some(i) => def_finder_visit(defs, i, s0),
                None => s0,
            },
            Stmt::Expr(x) => def_finder_visit(defs, x, s0),
            Stmt::Item => s0,
        }
    }
}

fn def_finder_visit_exec(defs: &HashMap<u64, u64>, e: &Expr, acc: &mut DivDefIds)
    ensures
        *final(acc) == def_finder_visit(defs@, *e, *old(acc)),
    decreases *e, 1nat,
{
    if let ExprKind::MethodCall { method, .. } = &e.kind {
        let d = match defs.get(&e.hir_id) {
            Some(x) => Some(*x),
            None => None,
        };
        if str_eq(method.as_str(), "checked_div") {
            acc.checked_div = d;
        } else if str_eq(method.as_str(), "checked_mul") {
            acc.checked_mul = d;
        } else if str_eq(method.as_str(), "saturating_mul") {
            acc.saturating_mul = d;
        } else if str_eq(method.as_str(), "saturating_div") {
            acc.saturating_div = d;
        }
    }
    def_finder_walk_exec(defs, e, acc);
}

fn def_finder_walk_exec(defs: &HashMap<u64, u64>, e: &Expr, acc: &mut DivDefIds)
    ensures
        *final(acc) == def_finder_walk(defs@, *e, *old(acc)),
    decreases *e, 0nat,
{
    match &e.kind {
        ExprKind::Lit(_) => {},
        ExprKind::Path(_) => {},
        ExprKind::Binary(_, l, r) => {
            def_finder_visit_exec(defs, l, acc);
            def_finder_visit_exec(defs, r, acc);
        },
        ExprKind::AssignOp(_, l, r) => {
            def_finder_visit_exec(defs, r, acc);
            def_finder_visit_exec(defs, l, acc);
        },
        ExprKind::Assign(l, r) => {
            def_finder_visit_exec(defs, r, acc);
            def_finder_visit_exec(defs, l, acc);
        },
        ExprKind::Unary(_, x) => def_finder_visit_exec(defs, x, acc),
        ExprKind::AddrOf(_, x) => def_finder_visit_exec(defs, x, acc),
        ExprKind::DropTemps(x) => def_finder_visit_exec(defs, x, acc),
        ExprKind::Cast(x, _) => def_finder_visit_exec(defs, x, acc),
        ExprKind::MethodCall { receiver, args, .. } => {
            def_finder_visit_exec(defs, receiver, acc);
            def_finder_seq_exec(defs, args, acc);
        },
        ExprKind::Call { callee, args } => {
            def_finder_visit_exec(defs, callee, acc);
            def_finder_seq_exec(defs, args, acc);
        },
        ExprKind::Block { stmts, tail } => {
            def_finder_stmts_exec(defs, stmts, acc);
            if let Some(t) = tail {
                def_finder_visit_exec(defs, t, acc);
            }
        },
        ExprKind::If { cond, then, els } => {
            def_finder_visit_exec(defs, cond, acc);
            def_finder_visit_exec(defs, then, acc);
            if let Some(x) = els {
                def_finder_visit_exec(defs, x, acc);
            }
        },
        ExprKind::Let { init, .. } => def_finder_visit_exec(defs, init, acc),
        ExprKind::Closure(_) => {},
        ExprKind::Other(cs) => def_finder_seq_exec(defs, cs, acc),
    }
}

#[verifier::loop_isolation(false)]
fn def_finder_seq_exec(defs: &HashMap<u64, u64>, es: &Vec<Expr>, acc: &mut DivDefIds)
    ensures
        *final(acc) == def_finder_seq(defs@, es@, *old(acc)),
    decreases *es, 0nat,
{
    let ghost s0 = *acc;
    let mut i: usize = 0;
    while i < es.len()
        invariant
            i <= es@.len(),
            *acc == def_finder_seq(defs@, es@.subrange(0, i as int), s0),
        decreases es@.len() - i,
    {
        proof {
            assert(decreases_to!(*es => es@));
            assert(decreases_to!(es@ => es@[i as int]));
            let p = es@.subrange(0, i + 1);
            assert(p.subrange(0, p.len() - 1) =~= es@.subrange(0, i as int));
        }
        def_finder_visit_exec(defs, &es[i], acc);
        i = i + 1;
    }
    assert(es@.subrange(0, es@.len() as int) =~= es@);
}

#[verifier::loop_isolation(false)]
fn def_finder_stmts_exec(defs: &HashMap<u64, u64>, stmts: &Vec<Stmt>, acc: &mut DivDefIds)
    ensures
        *final(acc) == def_finder_stmts(defs@, stmts@, *old(acc)),
    decreases *stmts, 0nat,
{
    let ghost s0 = *acc;
    let mut i: usize = 0;
    while i < stmts.len()
        invariant
            i <= stmts@.len(),
            *acc == def_finder_stmts(defs@, stmts@.subrange(0, i as int), s0),
        decreases stmts@.len() - i,
    {
        proof {
            let p = stmts@.subrange(0, i + 1);
            assert(p.subrange(0, p.len() - 1) =~= stmts@.subrange(0, i as int));
            assert(p[p.len() - 1] == stmts@[i as int]);
            assert(decreases_to!(*stmts => stmts@));
            assert(decreases_to!(stmts@ => stmts@[i as int]));
        }
        match &stmts[i] {
            Stmt::Let { init, .. } => {
                if let Some(x) = init {
                    proof {
                        assert(decreases_to!(stmts@[i as int] => stmts@[i as int]->Let_init));
                    }
                    def_finder_visit_exec(defs, x, acc);
                }
            },
            Stmt::Expr(x) => {
                def_finder_visit_exec(defs, x, acc);
            },
            Stmt::Item => {},
        }
        i = i + 1;
    }
    assert(stmts@.subrange(0, stmts@.len() as int) =~= stmts@);
}

/// No definition found.
pub open spec fn no_div_def_ids() -> DivDefIds {
    DivDefIds { checked_div: None, checked_mul: None, saturating_div: None, saturating_mul: None }
}

/// The definitions of the checked and saturating methods a body calls, from its walk;
/// `method_defs` maps each method call to the method it resolves to.
pub fn find_div_def_ids(body: &Expr, method_defs: &HashMap<u64, u64>) -> (r: DivDefIds)
    ensures
        r == def_finder_walk(method_defs@, *body, no_div_def_ids()),
{
    let mut r = DivDefIds { checked_div: None, checked_mul: None, saturating_div: None, saturating_mul: None };
    def_finder_walk_exec(method_defs, body, &mut r);
    r
}

/// No block visited yet.
pub open spec fn none_visited(n: nat) -> Seq<bool> {
    Seq::new(n, |i: int| false)
}

/// The lint pass.
pub struct DivideBeforeMultiply;

impl DivideBeforeMultiply {
    /// The spans the pass reports in a function: when its source calls `checked_div`,
    /// `checked_mul` or `saturating_mul`, the multiplications that the walk of its control-flow
    /// graph from the entry block finds using the result of a division.
    pub fn check_fn(&self, body: &Expr, method_defs: &HashMap<u64, u64>, bbs: &Vec<BasicBlockData>) -> (r: Vec<Span>)
        requires
            bbs@.len() > 0,
            well_formed(bbs@),
        ensures
            ({
                let ids = def_finder_walk(method_defs@, *body, no_div_def_ids());
                r@ == if ids.checked_div is Some || ids.checked_mul is Some || ids.saturating_mul is Some {
                    nav(bbs@, ids, 0, DivModel { tainted: seq![], visited: none_visited(bbs@.len()), spans: seq![] },
                        count_unvisited(none_visited(bbs@.len())) + 1).spans
                } else {
                    seq![]
                }
            }),
    {
        let ids = find_div_def_ids(body, method_defs);
        if ids.checked_div.is_some() || ids.checked_mul.is_some() || ids.saturating_mul.is_some() {
            let mut tainted: Vec<Place> = Vec::new();
            let mut visited: Vec<bool> = Vec::new();
            let mut i: usize = 0;
            while i < bbs.len()
                invariant
                    i <= bbs@.len(),
                    visited@ == none_visited(i as nat),
                decreases bbs@.len() - i,
            {
                visited.push(false);
                assert(visited@ =~= none_visited((i + 1) as nat));
                i = i + 1;
            }
            let mut spans: Vec<Span> = Vec::new();
            assert(tainted@ =~= seq![]);
            assert(spans@ =~= seq![]);
            navigate_trough_basicblocks(0, bbs, &ids, &mut tainted, &mut visited, &mut spans);
            spans
        } else {
            Vec::new()
        }
    }

    /// The spans the pass reports at an expression: for a multiplication, the divisions inside
    /// it.
    pub fn check_expr(&self, e: &Expr) -> (r: Vec<Span>)
        ensures
            r@ == match e.kind {
                ExprKind::Binary(op, _, _) => if op == BinOpKind::Mul { divs_walk(*e, seq![]) } else { seq![] },
                _ => seq![],
            },
    {
        if let ExprKind::Binary(op, _, _) = &e.kind {
            if *op == BinOpKind::Mul {
                return get_divisions_inside_expr(e);
            }
        }
        Vec::new()
    }
}

/// The definition that `ids` records for one of the methods: `which` is 0 for `checked_div`,
/// 1 for `checked_mul`, 2 for `saturating_mul` and 3 for `saturating_div`.
pub open spec fn recorded_def(ids: DivDefIds, which: int) -> Option<u64> {
    if which == 0 {
        ids.checked_div
    } else if which == 1 {
        ids.checked_mul
    } else if which == 2 {
        ids.saturating_mul
    } else {
        ids.saturating_div
    }
}

/// The name of the method that `which` stands for.
pub open spec fn div_method(which: int) -> Seq<char> {
    if which == 0 {
        "checked_div"@
    } else if which == 1 {
        "checked_mul"@
    } else if which == 2 {
        "saturating_mul"@
    } else {
        "saturating_div"@
    }
}

/// A resolved call of one of the methods records its definition; any other resolved call
/// keeps a recorded definition.
pub proof fn lemma_def_finder_effect(defs: Map<u64, u64>, which: int, e: Expr, s: DivDefIds)
    requires
        0 <= which < 4,
        e.kind is MethodCall ==> defs.dom().contains(e.hir_id),
    ensures
        recorded_def(s, which) is Some ==> recorded_def(def_finder_effect(defs, e, s), which) is Some,
        (e.kind matches ExprKind::MethodCall { method, .. } && method@ == div_method(which))
            ==> recorded_def(def_finder_effect(defs, e, s), which) == Some(defs[e.hir_id]),
{
    reveal_strlit("checked_div");
    reveal_strlit("checked_mul");
    reveal_strlit("saturating_mul");
    reveal_strlit("saturating_div");
    assert("checked_div"@[8] != "checked_mul"@[8]);
    assert("saturating_mul"@[11] != "saturating_div"@[11]);
    assert("checked_div"@.len() != "saturating_mul"@.len());
    assert("checked_div"@.len() != "saturating_div"@.len());
    assert("checked_mul"@.len() != "saturating_mul"@.len());
    assert("checked_mul"@.len() != "saturating_div"@.len());
}

/// Once a definition is recorded for a method, a walk over resolved calls keeps one.
pub proof fn lemma_def_finder_visit_ext(defs: Map<u64, u64>, which: int, e: Expr, s: DivDefIds)
    requires
        0 <= which < 4,
        method_calls_in(e, defs.dom()),
    ensures
        (recorded_def(s, which) is Some ==> recorded_def(def_finder_visit(defs, e, s), which) is Some),
    decreases e, 1nat,
{
    let s1 = def_finder_effect(defs, e, s);
    lemma_def_finder_effect(defs, which, e, s);
    lemma_def_finder_walk_ext(defs, which, e, s1);
}

/// Once a definition is recorded for a method, a walk over resolved calls keeps one.
pub proof fn lemma_def_finder_walk_ext(defs: Map<u64, u64>, which: int, e: Expr, s: DivDefIds)
    requires
        0 <= which < 4,
        method_call_parts_in(e, defs.dom()),
    ensures
        (recorded_def(s, which) is Some ==> recorded_def(def_finder_walk(defs, e, s), which) is Some),
    decreases e, 0nat,
{
    match e.kind {
        ExprKind::Binary(_, l, r) => {
            let a = def_finder_visit(defs, *l, s);
            lemma_def_finder_visit_ext(defs, which, *l, s);
            lemma_def_finder_visit_ext(defs, which, *r, a);
        },
        ExprKind::AssignOp(_, l, r) => {
            let a = def_finder_visit(defs, *r, s);
            lemma_def_finder_visit_ext(defs, which, *r, s);
            lemma_def_finder_visit_ext(defs, which, *l, a);
        },
        ExprKind::Assign(l, r) => {
            let a = def_finder_visit(defs, *r, s);
            lemma_def_finder_visit_ext(defs, which, *r, s);
            lemma_def_finder_visit_ext(defs, which, *l, a);
        },
        ExprKind::Unary(_, y) => lemma_def_finder_visit_ext(defs, which, *y, s),
        ExprKind::AddrOf(_, y) => lemma_def_finder_visit_ext(defs, which, *y, s),
        ExprKind::DropTemps(y) => lemma_def_finder_visit_ext(defs, which, *y, s),
        ExprKind::Cast(y, _) => lemma_def_finder_visit_ext(defs, which, *y, s),
        ExprKind::MethodCall { receiver, args, .. } => {
            let a = def_finder_visit(defs, *receiver, s);
            lemma_def_finder_visit_ext(defs, which, *receiver, s);
            lemma_def_finder_seq_ext(defs, which, args@, a);
        },
        ExprKind::Call { callee, args } => {
            let a = def_finder_visit(defs, *callee, s);
            lemma_def_finder_visit_ext(defs, which, *callee, s);
            lemma_def_finder_seq_ext(defs, which, args@, a);
        },
        ExprKind::Block { stmts, tail } => {
            let a = def_finder_stmts(defs, stmts@, s);
            lemma_def_finder_stmts_ext(defs, which, stmts@, s);
            match tail {
                Some(tl) => {
                    lemma_def_finder_visit_ext(defs, which, *tl, a);
                },
                None => {},
            }
        },
        ExprKind::If { cond, then, els } => {
            let a = def_finder_visit(defs, *cond, s);
            let b = def_finder_visit(defs, *then, a);
            lemma_def_finder_visit_ext(defs, which, *cond, s);
            lemma_def_finder_visit_ext(defs, which, *then, a);
            match els {
                Some(y) => {
                    lemma_def_finder_visit_ext(defs, which, *y, b);
                },
                None => {},
            }
        },
        ExprKind::Let { init, .. } => lemma_def_finder_visit_ext(defs, which, *init, s),
        ExprKind::Other(cs) => lemma_def_finder_seq_ext(defs, which, cs@, s),
        _ => {},
    }
}

/// Once a definition is recorded for a method, a walk over resolved calls keeps one.
pub proof fn lemma_def_finder_seq_ext(defs: Map<u64, u64>, which: int, es: Seq<Expr>, s: DivDefIds)
    requires
        0 <= which < 4,
        method_calls_in_seq(es, defs.dom()),
    ensures
        (recorded_def(s, which) is Some ==> recorded_def(def_finder_seq(defs, es, s), which) is Some),
    decreases es, 0nat,
{
    if es.len() > 0 {
        let p = es.subrange(0, es.len() - 1);
        let a = def_finder_seq(defs, p, s);
        lemma_def_finder_seq_ext(defs, which, p, s);
        lemma_def_finder_visit_ext(defs, which, es[es.len() - 1], a);
    }
}

/// Once a definition is recorded for a method, a walk over resolved calls keeps one.
pub proof fn lemma_def_finder_stmts_ext(defs: Map<u64, u64>, which: int, ss: Seq<Stmt>, s: DivDefIds)
    requires
        0 <= which < 4,
        method_calls_in_stmts(ss, defs.dom()),
    ensures
        (recorded_def(s, which) is Some ==> recorded_def(def_finder_stmts(defs, ss, s), which) is Some),
    decreases ss, 0nat,
{
    if ss.len() > 0 {
        let p = ss.subrange(0, ss.len() - 1);
        let a = def_finder_stmts(defs, p, s);
        lemma_def_finder_stmts_ext(defs, which, p, s);
        match ss[ss.len() - 1] {
            Stmt::Let { init, .. } => match init {
                Some(i) => {
                    lemma_def_finder_visit_ext(defs, which, i, a);
                },
                None => {},
            },
            Stmt::Expr(y) => {
                lemma_def_finder_visit_ext(defs, which, y, a);
            },
            Stmt::Item => {},
        }
    }
}

/// A resolved call of the method that the walk reaches records a definition for it.
pub proof fn lemma_def_finder_visit_finds(defs: Map<u64, u64>, which: int, x: Expr, e: Expr, s: DivDefIds)
    requires
        visited_in(x, e),
        (x.kind matches ExprKind::MethodCall { method, .. } && method@ == div_method(which)),
        0 <= which < 4,
        method_calls_in(e, defs.dom()),
    ensures
        recorded_def(def_finder_visit(defs, e, s), which) is Some,
    decreases e, 1nat,
{
    let s1 = def_finder_effect(defs, e, s);
    lemma_def_finder_effect(defs, which, e, s);
    if x == e {
        lemma_def_finder_walk_ext(defs, which, e, s1);
    } else {
        lemma_def_finder_walk_finds(defs, which, x, e, s1);
    }
}

/// A resolved call of the method that the walk reaches records a definition for it.
pub proof fn lemma_def_finder_walk_finds(defs: Map<u64, u64>, which: int, x: Expr, e: Expr, s: DivDefIds)
    requires
        visited_in_parts(x, e),
        (x.kind matches ExprKind::MethodCall { method, .. } && method@ == div_method(which)),
        0 <= which < 4,
        method_call_parts_in(e, defs.dom()),
    ensures
        recorded_def(def_finder_walk(defs, e, s), which) is Some,
    decreases e, 0nat,
{
    match e.kind {
        ExprKind::Binary(_, l, r) => {
            let a = def_finder_visit(defs, *l, s);
            if visited_in(x, *r) {
                lemma_def_finder_visit_finds(defs, which, x, *r, a);
            } else {
                lemma_def_finder_visit_finds(defs, which, x, *l, s);
                lemma_def_finder_visit_ext(defs, which, *r, a);
            }
        },
        ExprKind::AssignOp(_, l, r) => {
            let a = def_finder_visit(defs, *r, s);
            if visited_in(x, *l) {
                lemma_def_finder_visit_finds(defs, which, x, *l, a);
            } else {
                lemma_def_finder_visit_finds(defs, which, x, *r, s);
                lemma_def_finder_visit_ext(defs, which, *l, a);
            }
        },
        ExprKind::Assign(l, r) => {
            let a = def_finder_visit(defs, *r, s);
            if visited_in(x, *l) {
                lemma_def_finder_visit_finds(defs, which, x, *l, a);
            } else {
                lemma_def_finder_visit_finds(defs, which, x, *r, s);
                lemma_def_finder_visit_ext(defs, which, *l, a);
            }
        },
        ExprKind::Unary(_, y) => { lemma_def_finder_visit_finds(defs, which, x, *y, s); },
        ExprKind::AddrOf(_, y) => { lemma_def_finder_visit_finds(defs, which, x, *y, s); },
        ExprKind::DropTemps(y) => { lemma_def_finder_visit_finds(defs, which, x, *y, s); },
        ExprKind::Cast(y, _) => { lemma_def_finder_visit_finds(defs, which, x, *y, s); },
        ExprKind::MethodCall { receiver, args, .. } => {
            let a = def_finder_visit(defs, *receiver, s);
            if visited_in_seq(x, args@) {
                lemma_def_finder_seq_finds(defs, which, x, args@, a);
            } else {
                lemma_def_finder_visit_finds(defs, which, x, *receiver, s);
                lemma_def_finder_seq_ext(defs, which, args@, a);
            }
        },
        ExprKind::Call { callee, args } => {
            let a = def_finder_visit(defs, *callee, s);
            if visited_in_seq(x, args@) {
                lemma_def_finder_seq_finds(defs, which, x, args@, a);
            } else {
                lemma_def_finder_visit_finds(defs, which, x, *callee, s);
                lemma_def_finder_seq_ext(defs, which, args@, a);
            }
        },
        ExprKind::Block { stmts, tail } => {
            let a = def_finder_stmts(defs, stmts@, s);
            match tail {
                Some(tl) => {
                    if visited_in(x, *tl) {
                        lemma_def_finder_visit_finds(defs, which, x, *tl, a);
                    } else {
                        lemma_def_finder_stmts_finds(defs, which, x, stmts@, s);
                        lemma_def_finder_visit_ext(defs, which, *tl, a);
                    }
                },
                None => {
                    lemma_def_finder_stmts_finds(defs, which, x, stmts@, s);
                },
            }
        },
        ExprKind::If { cond, then, els } => {
            let a = def_finder_visit(defs, *cond, s);
            let b = def_finder_visit(defs, *then, a);
            let in_y = match els {
                Some(y) => visited_in(x, *y),
                None => false,
            };
            if !in_y {
                if visited_in(x, *then) {
                    lemma_def_finder_visit_finds(defs, which, x, *then, a);
                } else {
                    lemma_def_finder_visit_finds(defs, which, x, *cond, s);
                    lemma_def_finder_visit_ext(defs, which, *then, a);
                }
            }
            match els {
                Some(y) => {
                    if in_y {
                        lemma_def_finder_visit_finds(defs, which, x, *y, b);
                    } else {
                        lemma_def_finder_visit_ext(defs, which, *y, b);
                    }
                },
                None => {},
            }
        },
        ExprKind::Let { init, .. } => { lemma_def_finder_visit_finds(defs, which, x, *init, s); },
        ExprKind::Other(cs) => {
            lemma_def_finder_seq_finds(defs, which, x, cs@, s);
        },
        _ => {},
    }
}

/// A resolved call of the method that the walk reaches records a definition for it.
pub proof fn lemma_def_finder_seq_finds(defs: Map<u64, u64>, which: int, x: Expr, es: Seq<Expr>, s: DivDefIds)
    requires
        visited_in_seq(x, es),
        (x.kind matches ExprKind::MethodCall { method, .. } && method@ == div_method(which)),
        0 <= which < 4,
        method_calls_in_seq(es, defs.dom()),
    ensures
        recorded_def(def_finder_seq(defs, es, s), which) is Some,
    decreases es, 0nat,
{
    let p = es.subrange(0, es.len() - 1);
    let a = def_finder_seq(defs, p, s);
    if visited_in(x, es[es.len() - 1]) {
        lemma_def_finder_visit_finds(defs, which, x, es[es.len() - 1], a);
    } else {
        lemma_def_finder_seq_finds(defs, which, x, p, s);
        lemma_def_finder_visit_ext(defs, which, es[es.len() - 1], a);
    }
}

/// A resolved call of the method that the walk reaches records a definition for it.
pub proof fn lemma_def_finder_stmts_finds(defs: Map<u64, u64>, which: int, x: Expr, ss: Seq<Stmt>, s: DivDefIds)
    requires
        visited_in_stmts(x, ss),
        (x.kind matches ExprKind::MethodCall { method, .. } && method@ == div_method(which)),
        0 <= which < 4,
        method_calls_in_stmts(ss, defs.dom()),
    ensures
        recorded_def(def_finder_stmts(defs, ss, s), which) is Some,
    decreases ss, 0nat,
{
    let p = ss.subrange(0, ss.len() - 1);
    let a = def_finder_stmts(defs, p, s);
    match ss[ss.len() - 1] {
        Stmt::Let { init, .. } => match init {
            Some(i) => {
                if visited_in(x, i) {
                    lemma_def_finder_visit_finds(defs, which, x, i, a);
                } else {
                    lemma_def_finder_stmts_finds(defs, which, x, p, s);
                    lemma_def_finder_visit_ext(defs, which, i, a);
                }
            },
            None => {
                lemma_def_finder_stmts_finds(defs, which, x, p, s);
            },
        },
        Stmt::Expr(y) => {
            if visited_in(x, y) {
                lemma_def_finder_visit_finds(defs, which, x, y, a);
            } else {
                lemma_def_finder_stmts_finds(defs, which, x, p, s);
                lemma_def_finder_visit_ext(defs, which, y, a);
            }
        },
        Stmt::Item => {
            lemma_def_finder_stmts_finds(defs, which, x, p, s);
        },
    }
}

/// A body that calls `checked_div`, `checked_mul`, `saturating_mul` or `saturating_div`
/// records a definition for that method when every method call of the body resolves: the
/// definitions found by the source walk then hold one for each of these methods that the
/// compiler's walk of the body reaches a call of.
pub proof fn law_called_method_recorded(defs: Map<u64, u64>, which: int, body: Expr, x: Expr)
    requires
        0 <= which < 4,
        method_calls_in(body, defs.dom()),
        visited_in_parts(x, body),
        x.kind matches ExprKind::MethodCall { method, .. } && method@ == div_method(which),
    ensures
        recorded_def(def_finder_walk(defs, body, no_div_def_ids()), which) is Some,
{
    lemma_def_finder_walk_finds(defs, which, x, body, no_div_def_ids());
}

} // verus!
