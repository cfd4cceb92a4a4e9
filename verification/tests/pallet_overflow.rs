use std::collections::HashMap;
use scout_audit::integer_overflow::{Cause, Finding, IntegerOverflowOrUnderflow, OperandFacts, Type};
use scout_audit::safety_context::ConstVal;
use scout_audit::hir::{BinOpKind, Expr, ExprKind, QPath, Res, Span, Stmt};

fn sp(lo: u32, hi: u32) -> Span {
    Span { lo, hi }
}

fn local(id: u64, binding: u64) -> Expr {
    Expr {
        hir_id: id,
        span: sp(id as u32, id as u32 + 1),
        kind: ExprKind::Path(QPath::Resolved { res: Res::Local(binding), segments: vec![], has_qualifier: false }),
    }
}

fn bin(id: u64, op: BinOpKind, l: Expr, r: Expr) -> Expr {
    Expr { hir_id: id, span: sp(id as u32, id as u32 + 10), kind: ExprKind::Binary(op, Box::new(l), Box::new(r)) }
}

fn block(stmts: Vec<Stmt>, tail: Option<Expr>) -> Expr {
    Expr { hir_id: 999, span: sp(0, 1000), kind: ExprKind::Block { stmts, tail: tail.map(Box::new) } }
}

fn susceptible(ids: &[u64]) -> HashMap<u64, OperandFacts> {
    let mut m = HashMap::new();
    for id in ids {
        m.insert(*id, OperandFacts { constant: None, susceptible: true, signed: false });
    }
    m
}

#[test]
fn finding_messages() {
    let f = Finding::new(sp(1, 2), Type::Underflow, Cause::Sub);
    assert_eq!(f.generate_message(), "This subtraction operation could underflow.");
    let f = Finding::new(sp(1, 2), Type::OverflowUnderflow, Cause::Multiple);
    assert_eq!(f.generate_message(), "This operation could overflow or underflow.");
    assert_eq!(Finding::new(sp(1, 2), Type::Overflow, Cause::Pow).generate_message(), "This exponentiation operation could overflow.");
}

#[test]
fn unguarded_subtraction_is_reported() {
    let body = block(vec![Stmt::Expr(bin(100, BinOpKind::Sub, local(1, 50), local(2, 51)))], None);
    let r = IntegerOverflowOrUnderflow.check_fn(&body, susceptible(&[1, 2]), false);
    assert_eq!(r, vec![Finding { span: sp(100, 110), type_: Type::Underflow, cause: Cause::Sub }]);
    assert!(IntegerOverflowOrUnderflow.check_fn(&body, susceptible(&[1, 2]), true).is_empty());
    assert!(IntegerOverflowOrUnderflow.check_fn(&body, susceptible(&[1]), false).is_empty());
}

#[test]
fn compound_operations_are_reported_once() {
    let inner = bin(101, BinOpKind::Mul, local(1, 50), local(2, 51));
    let body = block(vec![Stmt::Expr(bin(100, BinOpKind::Add, inner, local(3, 52)))], None);
    let r = IntegerOverflowOrUnderflow.check_fn(&body, susceptible(&[1, 2, 3, 101]), false);
    assert_eq!(r, vec![Finding { span: sp(100, 110), type_: Type::OverflowUnderflow, cause: Cause::Multiple }]);
}

#[test]
fn constant_operands_are_not_reported() {
    let mut facts = susceptible(&[]);
    facts.insert(1, OperandFacts { constant: Some(ConstVal::Int(3)), susceptible: true, signed: false });
    facts.insert(2, OperandFacts { constant: Some(ConstVal::Int(1)), susceptible: true, signed: false });
    let body = block(vec![Stmt::Expr(bin(100, BinOpKind::Sub, local(1, 50), local(2, 51)))], None);
    assert!(IntegerOverflowOrUnderflow.check_fn(&body, facts, false).is_empty());
}

#[test]
fn guarded_subtraction_is_not_reported() {
    // if b <= a { a - b }
    let cond = Expr { hir_id: 200, span: sp(200, 210), kind: ExprKind::DropTemps(Box::new(bin(201, BinOpKind::Le, local(3, 51), local(4, 50)))) };
    let then = block(vec![], Some(bin(100, BinOpKind::Sub, local(1, 50), local(2, 51))));
    let iff = Expr { hir_id: 300, span: sp(300, 400), kind: ExprKind::If { cond: Box::new(cond), then: Box::new(then), els: None } };
    let body = block(vec![Stmt::Expr(iff)], None);
    assert!(IntegerOverflowOrUnderflow.check_fn(&body, susceptible(&[1, 2, 3, 4]), false).is_empty());
    // Outside the branch the same subtraction is reported.
    let after = bin(101, BinOpKind::Sub, local(5, 50), local(6, 51));
    let cond = Expr { hir_id: 200, span: sp(200, 210), kind: ExprKind::DropTemps(Box::new(bin(201, BinOpKind::Le, local(3, 51), local(4, 50)))) };
    let iff = Expr { hir_id: 300, span: sp(300, 400), kind: ExprKind::If { cond: Box::new(cond), then: Box::new(block(vec![], None)), els: None } };
    let body = block(vec![Stmt::Expr(iff), Stmt::Expr(after)], None);
    let r = IntegerOverflowOrUnderflow.check_fn(&body, susceptible(&[3, 4, 5, 6]), false);
    assert_eq!(r, vec![Finding { span: sp(101, 111), type_: Type::Underflow, cause: Cause::Sub }]);
}

#[test]
fn division_by_a_checked_divisor_is_not_reported() {
    // if d != 0 { n / d } ; then n / d again outside.
    let mut facts = susceptible(&[1, 2, 3, 5, 6]);
    facts.insert(4, OperandFacts { constant: Some(ConstVal::Int(0)), susceptible: true, signed: false });
    let cond = Expr { hir_id: 200, span: sp(200, 210), kind: ExprKind::DropTemps(Box::new(bin(201, BinOpKind::Ne, local(3, 51), Expr { hir_id: 4, span: sp(4, 5), kind: ExprKind::Lit(scout_audit::hir::LitKind::Int(0)) }))) };
    let then = block(vec![], Some(bin(100, BinOpKind::Div, local(1, 50), local(2, 51))));
    let iff = Expr { hir_id: 300, span: sp(300, 400), kind: ExprKind::If { cond: Box::new(cond), then: Box::new(then), els: None } };
    let after = bin(101, BinOpKind::Div, local(5, 50), local(6, 51));
    let body = block(vec![Stmt::Expr(iff), Stmt::Expr(after)], None);
    let r = IntegerOverflowOrUnderflow.check_fn(&body, facts, false);
    assert_eq!(r, vec![Finding { span: sp(101, 111), type_: Type::Overflow, cause: Cause::Div }]);
}
