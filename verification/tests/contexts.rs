use std::collections::HashMap;
use scout_audit::safety_context::{ConstVal, ExprInfo, SafetyContext};
use scout_audit::ink_integer_overflow::ArithmeticContext;
use scout_audit::option_result::{Condition, ConditionalChecker, OptionResultChecker, CheckType};
use scout_audit::weight_name::GlobalState;
use scout_audit::uncached_storage::{merge_state_maps, CopyState};
use scout_audit::alias::resolve_alias;
use scout_audit::hir::{BinOpKind, Expr, ExprKind, LitKind, QPath, Res, Span, UnOp};

fn var(id: u64) -> ExprInfo {
    ExprInfo { constant: None, hir_id: Some(id) }
}

fn cst(v: u128, id: u64) -> ExprInfo {
    ExprInfo { constant: Some(ConstVal::Int(v)), hir_id: Some(id) }
}

fn sp(lo: u32, hi: u32) -> Span {
    Span { lo, hi }
}

fn local(id: u64, binding: u64, lo: u32) -> Expr {
    Expr {
        hir_id: id,
        span: sp(lo, lo + 1),
        kind: ExprKind::Path(QPath::Resolved { res: Res::Local(binding), segments: vec![], has_qualifier: false }),
    }
}

fn lit(id: u64, v: u128, lo: u32) -> Expr {
    Expr { hir_id: id, span: sp(lo, lo + 1), kind: ExprKind::Lit(LitKind::Int(v)) }
}

#[test]
fn constant_subtractions() {
    let c = SafetyContext::new();
    assert!(c.is_subtraction_safe(cst(5, 1), cst(3, 2)));
    assert!(c.is_subtraction_safe(cst(3, 1), cst(3, 2)));
    assert!(!c.is_subtraction_safe(cst(2, 1), cst(3, 2)));
}

#[test]
fn comparison_guards_subtraction_only_inside_its_branch() {
    let mut c = SafetyContext::new();
    let (a, b) = (var(1), var(2));
    assert!(!c.is_subtraction_safe(b, a));
    c.enter_scope();
    c.track_comparison(a, b);
    assert!(c.is_subtraction_safe(b, a));
    assert!(!c.is_subtraction_safe(a, b));
    c.exit_scope();
    assert!(!c.is_subtraction_safe(b, a));
}

#[test]
fn constant_bound_guards_subtraction() {
    let mut c = SafetyContext::new();
    let x = var(7);
    c.enter_scope();
    c.track_comparison(cst(10, 8), x);
    assert!(c.is_subtraction_safe(x, cst(10, 9)));
    c.exit_scope();
    assert!(!c.is_subtraction_safe(x, cst(10, 9)));
}

#[test]
fn nonzero_guard_makes_division_safe() {
    let mut c = SafetyContext::new();
    let x = var(3);
    assert!(!c.is_division_safe(x));
    assert!(c.is_division_safe(cst(4, 5)));
    assert!(!c.is_division_safe(cst(0, 5)));
    c.enter_scope();
    c.track_zero_comparison(x, true);
    assert!(c.is_division_safe(x));
}

#[test]
fn one_report_per_expression_tree() {
    let mut ctx = ArithmeticContext::new();
    let l = local(2, 100, 10);
    let r = local(3, 101, 12);
    let e = Expr { hir_id: 1, span: sp(10, 13), kind: ExprKind::Binary(BinOpKind::Add, Box::new(local(2, 100, 10)), Box::new(local(3, 101, 12))) };
    let rep = ctx.check_binary(&e, BinOpKind::Add, &l, &r, true, true).expect("a report");
    assert_eq!(rep.span, sp(10, 13));
    assert_eq!(rep.help, "Potential for integer arithmetic overflow/underflow in operation '+'. Consider checked, wrapping or saturating arithmetic.");
    assert!(ctx.check_binary(&e, BinOpKind::Mul, &l, &r, true, true).is_none());
    ctx.expr_post(1);
    assert!(ctx.check_binary(&e, BinOpKind::Mul, &l, &r, true, true).is_some());
}

#[test]
fn reports_by_operator_and_type() {
    let mut ctx = ArithmeticContext::new();
    let l = local(2, 100, 10);
    let r = local(3, 101, 12);
    let e = Expr { hir_id: 1, span: sp(10, 13), kind: ExprKind::Lit(LitKind::Other(0)) };
    assert!(ctx.check_binary(&e, BinOpKind::Lt, &l, &r, true, true).is_none());
    assert!(ctx.check_binary(&e, BinOpKind::Add, &l, &r, true, false).is_none());
    let one = lit(4, 1, 20);
    assert!(ctx.check_binary(&e, BinOpKind::Div, &l, &one, true, true).is_none());
    let neg_one = Expr { hir_id: 5, span: sp(20, 22), kind: ExprKind::Unary(UnOp::Neg, Box::new(lit(6, 1, 21))) };
    let rep = ctx.check_binary(&e, BinOpKind::Div, &l, &neg_one, true, true).expect("a report at the literal");
    assert_eq!(rep.span, sp(21, 22));
    ctx.expr_post(6);
    let rep = ctx.check_assignment(&e, BinOpKind::Sub, &l, &r, true, true).expect("a report");
    assert_eq!(rep.help, "Potential for integer arithmetic overflow/underflow in operation '-='. Consider checked, wrapping or saturating arithmetic.");
}

#[test]
fn bitwise_compound_assignments_are_not_reported() {
    let mut ctx = ArithmeticContext::new();
    let l = local(2, 100, 10);
    let r = local(3, 101, 12);
    let e = Expr { hir_id: 1, span: sp(10, 13), kind: ExprKind::Lit(LitKind::Other(0)) };
    assert!(ctx.check_assignment(&e, BinOpKind::BitAnd, &l, &r, true, true).is_none());
    assert!(ctx.check_assignment(&e, BinOpKind::BitOr, &l, &r, true, true).is_none());
    assert!(ctx.check_assignment(&e, BinOpKind::BitXor, &l, &r, true, true).is_none());
    let rep = ctx.check_assignment(&e, BinOpKind::Shl, &l, &r, true, true).expect("a report");
    assert_eq!(rep.help, "Potential for integer arithmetic overflow/underflow in operation '<<='. Consider checked, wrapping or saturating arithmetic.");
}

#[test]
fn constant_bodies_are_not_reported() {
    let mut ctx = ArithmeticContext::new();
    ctx.enter_body(true, sp(0, 100));
    let l = local(2, 100, 10);
    let r = local(3, 101, 12);
    let e = Expr { hir_id: 1, span: sp(10, 13), kind: ExprKind::Lit(LitKind::Other(0)) };
    assert!(ctx.check_binary(&e, BinOpKind::Add, &l, &r, true, true).is_none());
    ctx.body_post(sp(0, 100));
    assert!(ctx.check_binary(&e, BinOpKind::Add, &l, &r, true, true).is_none());
    ctx.body_post(sp(200, 300));
    assert!(ctx.check_binary(&e, BinOpKind::Add, &l, &r, true, true).is_some());
}

#[test]
fn is_some_check_makes_unwrap_safe_inside_the_branch() {
    let mut ch = OptionResultChecker::new();
    let cond = Condition::MethodCall { method: String::from("is_some"), receiver_local: Some(7) };
    let cs = ConditionalChecker::from_expression(&cond);
    assert_eq!(cs.len(), 1);
    assert!(ch.is_method_call_unsafe(false, Some(7)));
    ch.update_conditional_checker(&cs, true);
    assert!(!ch.is_method_call_unsafe(false, Some(7)));
    assert!(ch.is_method_call_unsafe(false, Some(8)));
    ch.update_conditional_checker(&cs, false);
    assert!(ch.is_method_call_unsafe(false, Some(7)));
    assert!(!ch.is_method_call_unsafe(true, Some(7)));
}

#[test]
fn negated_and_halting_checks() {
    let mut ch = OptionResultChecker::new();
    let not_none = Condition::Unary {
        is_not: true,
        operand: Box::new(Condition::MethodCall { method: String::from("is_none"), receiver_local: Some(3) }),
    };
    let cs = ConditionalChecker::from_expression(&not_none);
    assert_eq!(cs[0].check_type, CheckType::IsSome);
    ch.update_conditional_checker(&cs, true);
    assert!(!ch.is_method_call_unsafe(false, Some(3)));

    let mut ch = OptionResultChecker::new();
    let is_err = Condition::MethodCall { method: String::from("is_err"), receiver_local: Some(4) };
    let cs = ConditionalChecker::from_expression(&is_err);
    ch.update_conditional_checker(&cs, true);
    assert!(ch.is_method_call_unsafe(false, Some(4)));
    ch.handle_if_expressions();
    assert!(!ch.is_method_call_unsafe(false, Some(4)));
}

#[test]
fn or_conditions_collect_every_check() {
    let c = Condition::Or(
        Box::new(Condition::MethodCall { method: String::from("is_ok"), receiver_local: Some(1) }),
        Box::new(Condition::MethodCall { method: String::from("is_some"), receiver_local: Some(2) }),
    );
    assert_eq!(ConditionalChecker::from_expression(&c).len(), 2);
    let other = Condition::MethodCall { method: String::from("len"), receiver_local: Some(1) };
    assert!(ConditionalChecker::from_expression(&other).is_empty());
}

#[test]
fn reconsidered_functions_read_back_what_was_written() {
    let mut g = GlobalState::new();
    assert!(!g.any_functions_to_reconsider());
    g.add_function_to_be_reconsidered(String::from("transfer"), 1, 2);
    g.add_function_to_be_reconsidered(String::from("mint"), 3, 4);
    g.add_function_to_be_reconsidered(String::from("transfer"), 5, 6);
    assert!(g.any_functions_to_reconsider());
    assert_eq!(g.functions_needs_reconsideration("transfer"), Some((5, 6)));
    assert_eq!(g.functions_needs_reconsideration("mint"), Some((3, 4)));
    assert_eq!(g.functions_needs_reconsideration("burn"), None);
}

#[test]
fn merging_branches_unites_modifications() {
    let s1: HashMap<u64, CopyState> = [(1, CopyState::Clean), (2, CopyState::Modified(sp(1, 2)))].into_iter().collect();
    let s2: HashMap<u64, CopyState> =
        [(1, CopyState::Modified(sp(3, 4))), (2, CopyState::Modified(sp(5, 6))), (3, CopyState::Clean)].into_iter().collect();
    let m = merge_state_maps(s1, &s2);
    let expected: HashMap<u64, CopyState> = [(1, CopyState::Modified(sp(3, 4))), (2, CopyState::Modified(sp(1, 2)))].into_iter().collect();
    assert_eq!(m, expected);
    let one: HashMap<u64, CopyState> = [(9, CopyState::Clean)].into_iter().collect();
    assert_eq!(merge_state_maps(one.clone(), &one), one);
    let added: HashMap<u64, CopyState> = [(4, CopyState::Modified(sp(7, 8)))].into_iter().collect();
    assert_eq!(merge_state_maps(HashMap::new(), &added), added);
}

#[test]
fn aliases_resolve_to_the_end_of_the_chain() {
    let mut a: HashMap<u64, u64> = HashMap::new();
    a.insert(1, 2);
    a.insert(2, 3);
    a.insert(5, 5);
    assert_eq!(resolve_alias(1, &a), 3);
    assert_eq!(resolve_alias(2, &a), 3);
    assert_eq!(resolve_alias(3, &a), 3);
    assert_eq!(resolve_alias(5, &a), 5);
}
