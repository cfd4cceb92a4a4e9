use std::collections::HashMap;
use scout_audit::hir::{BinOpKind, Expr, ExprKind, LitKind, QPath, Res, Span, Stmt, UnOp};
use scout_audit::expr_analyzer::{collect_locals, ExprAnalyzer};
use scout_audit::divide_before_multiply::{get_divisions_inside_expr, DivideBeforeMultiply};

fn sp(lo: u32, hi: u32) -> Span {
    Span { lo, hi }
}

fn lit(id: u64, v: u128) -> Expr {
    Expr { hir_id: id, span: sp(0, 1), kind: ExprKind::Lit(LitKind::Int(v)) }
}

fn local(id: u64, binding: u64) -> Expr {
    Expr {
        hir_id: id,
        span: sp(0, 1),
        kind: ExprKind::Path(QPath::Resolved { res: Res::Local(binding), segments: vec![], has_qualifier: false }),
    }
}

fn bin(id: u64, op: BinOpKind, l: Expr, r: Expr) -> Expr {
    Expr { hir_id: id, span: sp(id as u32, id as u32 + 1), kind: ExprKind::Binary(op, Box::new(l), Box::new(r)) }
}

fn let_stmt(pat: u64, init: Expr) -> Stmt {
    Stmt::Let { pat_hir_id: pat, binding: Some(String::from("x")), init: Some(init) }
}

#[test]
fn same_node_and_equal_literals_are_equivalent() {
    let locals: HashMap<u64, &Expr> = HashMap::new();
    let a = ExprAnalyzer::new(&locals);
    let e = lit(1, 5);
    let f = lit(2, 5);
    let g = lit(3, 6);
    assert!(a.are_equivalent(&e, &e));
    assert!(a.are_equivalent(&e, &f));
    assert!(!a.are_equivalent(&e, &g));
}

#[test]
fn binary_operations_compare_operator_and_operands() {
    let locals: HashMap<u64, &Expr> = HashMap::new();
    let a = ExprAnalyzer::new(&locals);
    let x = bin(10, BinOpKind::Add, lit(1, 1), local(2, 100));
    let y = bin(11, BinOpKind::Add, lit(3, 1), local(4, 100));
    let z = bin(12, BinOpKind::Sub, lit(5, 1), local(6, 100));
    assert!(a.are_equivalent(&x, &y));
    assert!(!a.are_equivalent(&x, &z));
}

#[test]
fn locals_are_seen_through_their_bindings() {
    // let a = 1 + 2; let b = 1 + 2;  then `a` and `b` are equivalent, `a` and `c` (3) are not.
    let body = Expr {
        hir_id: 50,
        span: sp(0, 100),
        kind: ExprKind::Block {
            stmts: vec![
                let_stmt(100, bin(20, BinOpKind::Add, lit(21, 1), lit(22, 2))),
                let_stmt(101, bin(23, BinOpKind::Add, lit(24, 1), lit(25, 2))),
                let_stmt(102, lit(26, 3)),
            ],
            tail: None,
        },
    };
    let mut locals: HashMap<u64, &Expr> = HashMap::new();
    collect_locals(&body, &mut locals);
    assert_eq!(locals.len(), 3);
    assert_eq!(locals[&100].hir_id, 20);
    let a = ExprAnalyzer::new(&locals);
    let ua = local(1, 100);
    let ub = local(2, 101);
    let uc = local(3, 102);
    assert!(a.are_equivalent(&ua, &ub));
    assert!(a.are_equivalent(&ub, &ua));
    assert!(!a.are_equivalent(&ua, &uc));
    assert!(!a.are_equivalent(&uc, &ua));
}

#[test]
fn cyclic_bindings_end_the_comparison() {
    // let p = q; let q = p;  comparing p with q passes through the pair once and stops.
    let pq = local(30, 201);
    let qp = local(31, 200);
    let mut locals: HashMap<u64, &Expr> = HashMap::new();
    locals.insert(200, &pq);
    locals.insert(201, &qp);
    let a = ExprAnalyzer::new(&locals);
    assert!(!a.are_equivalent(&local(1, 200), &local(2, 201)));
    assert!(a.are_equivalent(&local(1, 200), &local(2, 200)));
}

#[test]
fn wrappers_and_tails_are_looked_through() {
    let locals: HashMap<u64, &Expr> = HashMap::new();
    let a = ExprAnalyzer::new(&locals);
    let wrapped = Expr { hir_id: 40, span: sp(0, 1), kind: ExprKind::DropTemps(Box::new(lit(41, 7))) };
    let block = Expr { hir_id: 42, span: sp(0, 1), kind: ExprKind::Block { stmts: vec![], tail: Some(Box::new(lit(43, 7))) } };
    let empty = Expr { hir_id: 44, span: sp(0, 1), kind: ExprKind::Block { stmts: vec![], tail: None } };
    assert!(a.are_equivalent(&wrapped, &lit(45, 7)));
    assert!(a.are_equivalent(&lit(45, 7), &wrapped));
    assert!(a.are_equivalent(&block, &wrapped));
    assert!(a.are_equivalent(&wrapped, &block));
    assert!(!a.are_equivalent(&empty, &lit(46, 7)));
    let neg1 = Expr { hir_id: 47, span: sp(0, 1), kind: ExprKind::Unary(UnOp::Neg, Box::new(lit(48, 7))) };
    let not1 = Expr { hir_id: 49, span: sp(0, 1), kind: ExprKind::Unary(UnOp::Not, Box::new(lit(50, 7))) };
    assert!(!a.are_equivalent(&neg1, &not1));
    let c1 = Expr { hir_id: 51, span: sp(0, 1), kind: ExprKind::Cast(Box::new(lit(52, 7)), 9) };
    let c2 = Expr { hir_id: 53, span: sp(0, 1), kind: ExprKind::Cast(Box::new(lit(54, 7)), 9) };
    let c3 = Expr { hir_id: 55, span: sp(0, 1), kind: ExprKind::Cast(Box::new(lit(56, 7)), 8) };
    assert!(a.are_equivalent(&c1, &c2));
    assert!(!a.are_equivalent(&c1, &c3));
}

#[test]
fn divisions_inside_a_multiplication() {
    // (a / b) * (c / d): two divisions, in walk order.
    let d1 = bin(2, BinOpKind::Div, lit(3, 1), lit(4, 2));
    let d2 = bin(5, BinOpKind::Div, lit(6, 3), lit(7, 4));
    let m = bin(1, BinOpKind::Mul, d1, d2);
    let spans = get_divisions_inside_expr(&m);
    assert_eq!(spans, vec![sp(2, 3), sp(5, 6)]);
    assert_eq!(DivideBeforeMultiply.check_expr(&m), vec![sp(2, 3), sp(5, 6)]);
    let s = bin(8, BinOpKind::Add, bin(9, BinOpKind::Div, lit(10, 1), lit(11, 2)), lit(12, 3));
    assert_eq!(DivideBeforeMultiply.check_expr(&s), Vec::<Span>::new());
    let top_div = bin(13, BinOpKind::Div, lit(14, 1), lit(15, 2));
    assert_eq!(get_divisions_inside_expr(&top_div), Vec::<Span>::new());
}
