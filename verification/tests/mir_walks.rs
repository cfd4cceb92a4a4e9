use std::collections::HashMap;
use scout_audit::divide_before_multiply::DivideBeforeMultiply;
use scout_audit::hir::{Expr, ExprKind, PathSegment, QPath, Res, Span, Stmt};
use scout_audit::mir::{BasicBlockData, BinOp, Operand, Place, Rvalue, Statement, StatementKind, Terminator, TerminatorKind};
use scout_audit::set_code_hash::{FinderEvent, SetCodeHash};

fn s(x: &str) -> String {
    String::from(x)
}

fn sp(lo: u32, hi: u32) -> Span {
    Span { lo, hi }
}

fn pl(local: u32) -> Place {
    Place { local, projection: 0 }
}

fn assign(dest: u32, rv: Rvalue, lo: u32) -> Statement {
    Statement { kind: StatementKind::Assign(pl(dest), rv), span: sp(lo, lo + 1) }
}

fn block(statements: Vec<Statement>, kind: TerminatorKind) -> BasicBlockData {
    BasicBlockData { statements, terminator: Some(Terminator { kind, span: sp(0, 0) }) }
}

fn call(def: u64, args: Vec<Operand>, dest: u32, target: Option<usize>, lo: u32) -> TerminatorKind {
    TerminatorKind::Call { func: Operand::Constant(Some(def), None), args, destination: pl(dest), target, fn_span: sp(lo, lo + 5) }
}

fn method_call(id: u64, name: &str) -> Expr {
    let receiver = Expr {
        hir_id: id + 1,
        span: sp(0, 1),
        kind: ExprKind::Path(QPath::Resolved {
            res: Res::Local(1),
            segments: vec![PathSegment { name: s("a"), hir_id: id + 2 }],
            has_qualifier: false,
        }),
    };
    Expr { hir_id: id, span: sp(0, 1), kind: ExprKind::MethodCall { method: s(name), receiver: Box::new(receiver), args: vec![], call_span: sp(0, 1) } }
}

fn source(calls: Vec<Expr>) -> Expr {
    Expr { hir_id: 0, span: sp(0, 100), kind: ExprKind::Block { stmts: calls.into_iter().map(Stmt::Expr).collect(), tail: None } }
}

fn division_body() -> Vec<BasicBlockData> {
    vec![
        block(
            vec![
                assign(3, Rvalue::BinaryOp(BinOp::Div, Operand::Copy(pl(1)), Operand::Copy(pl(2))), 10),
                assign(4, Rvalue::Use(Operand::Copy(pl(3))), 11),
            ],
            call(77, vec![Operand::Copy(pl(1))], 5, Some(1), 20),
        ),
        block(vec![], call(88, vec![Operand::Move(pl(5))], 6, Some(2), 30)),
        block(
            vec![
                assign(7, Rvalue::BinaryOp(BinOp::MulUnchecked, Operand::Copy(pl(4)), Operand::Copy(pl(9))), 40),
                assign(8, Rvalue::BinaryOp(BinOp::MulUnchecked, Operand::Copy(pl(10)), Operand::Copy(pl(11))), 41),
                assign(12, Rvalue::BinaryOp(BinOp::Mul, Operand::Copy(pl(10)), Operand::Copy(pl(11))), 42),
                assign(13, Rvalue::BinaryOp(BinOp::Mul, Operand::Copy(pl(10)), Operand::Move(pl(3))), 43),
            ],
            TerminatorKind::Goto { target: 0 },
        ),
    ]
}

#[test]
fn only_multiplications_of_division_results_are_reported() {
    let body = source(vec![method_call(3, "checked_div"), method_call(6, "checked_mul")]);
    let mut defs = HashMap::new();
    defs.insert(3, 77);
    defs.insert(6, 88);
    assert_eq!(DivideBeforeMultiply.check_fn(&body, &defs, &division_body()), vec![sp(30, 35), sp(40, 41), sp(43, 44)]);
}

#[test]
fn bodies_without_checked_arithmetic_are_not_walked() {
    let body = source(vec![method_call(3, "saturating_div"), method_call(6, "wrapping_mul")]);
    let mut defs = HashMap::new();
    defs.insert(3, 77);
    defs.insert(6, 88);
    assert!(DivideBeforeMultiply.check_fn(&body, &defs, &division_body()).is_empty());
}

fn path_named(id: u64, name: &str) -> Expr {
    Expr {
        hir_id: id,
        span: sp(0, 1),
        kind: ExprKind::Path(QPath::Resolved {
            res: Res::Local(id),
            segments: vec![PathSegment { name: s(name), hir_id: id + 1 }],
            has_qualifier: false,
        }),
    }
}

fn env_of(base: &str) -> Expr {
    Expr {
        hir_id: 50,
        span: sp(0, 1),
        kind: ExprKind::MethodCall { method: s("env"), receiver: Box::new(path_named(51, base)), args: vec![], call_span: sp(0, 1) },
    }
}

fn caller_query_on(base: &str) -> FinderEvent {
    FinderEvent::MethodCall { method: s("caller"), receiver: env_of(base), receiver_adt_path: None, def_id: Some(10), span: sp(1, 2) }
}

fn caller_query() -> FinderEvent {
    caller_query_on("self")
}

fn set_code_hash_call() -> FinderEvent {
    FinderEvent::MethodCall {
        method: s("set_code_hash"),
        receiver: env_of("self"),
        receiver_adt_path: Some(s("ink::env_access::EnvAccess")),
        def_id: Some(20),
        span: sp(5, 9),
    }
}

fn unchecked_body() -> Vec<BasicBlockData> {
    vec![
        block(vec![], call(10, vec![], 1, Some(1), 100)),
        block(vec![], call(20, vec![Operand::Copy(pl(2))], 3, Some(2), 110)),
        block(vec![], TerminatorKind::Other),
    ]
}

fn checked_body() -> Vec<BasicBlockData> {
    vec![
        block(vec![], call(10, vec![], 1, Some(1), 100)),
        block(vec![assign(2, Rvalue::Ref(pl(1)), 105)], call(30, vec![Operand::Move(pl(2)), Operand::Copy(pl(9))], 4, Some(2), 106)),
        block(vec![], TerminatorKind::SwitchInt { discr: Operand::Move(pl(4)), values: vec![0], targets: vec![3, 4] }),
        block(vec![], call(20, vec![], 5, Some(4), 120)),
        block(vec![], TerminatorKind::Other),
    ]
}

#[test]
fn set_code_hash_without_a_caller_check_is_reported() {
    let pass = SetCodeHash::new();
    let events = vec![caller_query(), set_code_hash_call()];
    assert_eq!(pass.check_fn(&events, &unchecked_body()), vec![sp(110, 115)]);
    assert!(pass.check_fn(&events, &checked_body()).is_empty());
}

#[test]
fn without_a_caller_query_every_set_code_hash_is_reported() {
    let pass = SetCodeHash::new();
    let events = vec![set_code_hash_call()];
    assert_eq!(pass.check_fn(&events, &checked_body()), vec![sp(120, 125)]);
    assert!(pass.check_fn(&vec![caller_query()], &checked_body()).is_empty());
    let mut with_dead_loop = unchecked_body();
    with_dead_loop.push(block(vec![], TerminatorKind::Goto { target: 4 }));
    with_dead_loop.push(block(vec![], TerminatorKind::Goto { target: 3 }));
    assert_eq!(pass.check_fn(&events, &with_dead_loop), vec![sp(110, 115)]);
    let other = vec![caller_query_on("other"), set_code_hash_call()];
    assert_eq!(pass.check_fn(&other, &checked_body()), vec![sp(120, 125)]);
}
