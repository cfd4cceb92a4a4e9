use std::collections::{HashMap, HashSet};
use scout_audit::admin_auth::NodeFacts;
use scout_audit::delegate_call::{check_delegate_call, DelegateCall};
use scout_audit::dos_revert::{DosUnexpectedRevertWithStorage, MethodFacts};
use scout_audit::hir::{Expr, ExprKind, LitKind, PathSegment, QPath, Res, Span, Stmt};
use scout_audit::ineffective_ttl::{IneffectiveExtendTtl, TtlFacts};
use scout_audit::safety_context::ConstVal;
use scout_audit::set_contract_storage::SetContractStorage;
use scout_audit::sr25519::WarningSr25519Verify;

fn s(x: &str) -> String {
    String::from(x)
}

fn sp(lo: u32, hi: u32) -> Span {
    Span { lo, hi }
}

fn ex(id: u64, kind: ExprKind) -> Expr {
    Expr { hir_id: id, span: sp(id as u32, id as u32 + 1), kind }
}

fn local(id: u64, binding: u64) -> Expr {
    ex(
        id,
        ExprKind::Path(QPath::Resolved {
            res: Res::Local(binding),
            segments: vec![PathSegment { name: s("x"), hir_id: id + 1000 }],
            has_qualifier: false,
        }),
    )
}

fn fn_path(id: u64, names: &[&str]) -> Expr {
    let segments = names.iter().enumerate().map(|(i, n)| PathSegment { name: s(n), hir_id: id + 100 + i as u64 }).collect();
    ex(id, ExprKind::Path(QPath::Resolved { res: Res::Def(id), segments, has_qualifier: false }))
}

fn lit(id: u64, v: u128) -> Expr {
    ex(id, ExprKind::Lit(LitKind::Int(v)))
}

fn method(id: u64, name: &str, receiver: Expr, args: Vec<Expr>) -> Expr {
    ex(id, ExprKind::MethodCall { method: s(name), receiver: Box::new(receiver), args, call_span: sp(id as u32 + 500, id as u32 + 510) })
}

fn block(stmts: Vec<Expr>) -> Expr {
    ex(0, ExprKind::Block { stmts: stmts.into_iter().map(Stmt::Expr).collect(), tail: None })
}

#[test]
fn sr25519_verify_paths_are_reported_in_walk_order() {
    let call = ex(3, ExprKind::Call { callee: Box::new(fn_path(4, &["ink", "env", "sr25519_verify"])), args: vec![local(5, 1)] });
    let other = ex(6, ExprKind::Call { callee: Box::new(fn_path(7, &["ink", "env", "caller"])), args: vec![] });
    let hidden = ex(8, ExprKind::Closure(Box::new(fn_path(9, &["sr25519_verify"]))));
    let again = ex(10, ExprKind::Call { callee: Box::new(fn_path(11, &["sr25519_verify"])), args: vec![] });
    let body = block(vec![call, other, hidden, again]);
    assert_eq!(WarningSr25519Verify.check_fn(&body), vec![sp(4, 5), sp(11, 12)]);
    assert!(WarningSr25519Verify.check_fn(&block(vec![])).is_empty());
}

#[test]
fn delegate_call_with_a_parameter_target_is_reported() {
    let call = method(3, "delegate", local(4, 1), vec![local(5, 42)]);
    assert_eq!(check_delegate_call(&call, &vec![Some(42)]), Some(sp(3, 4)));
    assert_eq!(check_delegate_call(&call, &vec![None, Some(7)]), None);
    let renamed = method(3, "call", local(4, 1), vec![local(5, 42)]);
    assert_eq!(check_delegate_call(&renamed, &vec![Some(42)]), None);

    let body = block(vec![method(3, "delegate", local(4, 1), vec![local(5, 42)]), method(6, "delegate", local(7, 1), vec![local(8, 42)])]);
    assert_eq!(DelegateCall.check_fn(&body, vec![Some(42)]), Some(sp(6, 7)));
    assert_eq!(DelegateCall.check_fn(&body, vec![Some(9)]), None);
    let root_only = method(3, "delegate", local(4, 1), vec![local(5, 42)]);
    assert_eq!(DelegateCall.check_fn(&root_only, vec![Some(42)]), None);
}

fn mfacts(def_id: u64, path: &str, lo: u32) -> MethodFacts {
    MethodFacts { def_id, def_path: s(path), name_span: sp(lo, lo + 3) }
}

#[test]
fn storage_growth_without_authorization_is_reported() {
    let pass = DosUnexpectedRevertWithStorage::new();
    let push = method(3, "push_back", local(4, 1), vec![lit(5, 1)]);
    let mut facts = HashMap::new();
    facts.insert(3, mfacts(70, "soroban_sdk::Vec::<T>::push_back", 90));
    assert_eq!(pass.check_fn(&block(vec![push]), facts), Some(sp(90, 93)));

    let auth = method(6, "require_auth", local(7, 2), vec![]);
    let push = method(3, "push_back", local(4, 1), vec![lit(5, 1)]);
    let mut facts = HashMap::new();
    facts.insert(3, mfacts(70, "soroban_sdk::Vec::<T>::push_back", 90));
    facts.insert(6, mfacts(71, "soroban_sdk::Address::require_auth", 95));
    assert_eq!(pass.check_fn(&block(vec![push, auth]), facts), None);

    let set = method(3, "set", local(4, 1), vec![lit(5, 1), lit(8, 2)]);
    let mut facts = HashMap::new();
    facts.insert(3, mfacts(72, "soroban_sdk::Map::<K, V>::set", 40));
    assert_eq!(pass.check_fn(&block(vec![set]), facts), Some(sp(40, 43)));

    let push = method(3, "push_back", local(4, 1), vec![lit(5, 1)]);
    let mut facts = HashMap::new();
    facts.insert(3, mfacts(73, "alloc::vec::Vec::<T>::push", 40));
    assert_eq!(pass.check_fn(&block(vec![push]), facts), None);
}

fn constant(v: u128) -> TtlFacts {
    TtlFacts { constant: Some(ConstVal::Int(v)), is_storage: false }
}

#[test]
fn extend_ttl_to_no_more_than_the_threshold_is_reported() {
    let storage = TtlFacts { constant: None, is_storage: true };
    let mut facts = HashMap::new();
    facts.insert(4, storage);
    facts.insert(5, constant(100));
    facts.insert(6, constant(50));
    facts.insert(14, storage);
    facts.insert(15, constant(50));
    facts.insert(16, constant(100));
    let lower = method(3, "extend_ttl", local(4, 1), vec![lit(5, 100), lit(6, 50)]);
    let higher = method(13, "extend_ttl", local(14, 1), vec![lit(15, 50), lit(16, 100)]);
    let same = method(23, "extend_ttl", local(14, 1), vec![local(25, 9), local(26, 9)]);
    let keyed = method(33, "extend_ttl", local(4, 1), vec![local(35, 8), lit(5, 100), lit(6, 50)]);
    let body = block(vec![lower, higher, same, keyed]);
    assert_eq!(IneffectiveExtendTtl.check_fn(false, &body, facts.clone()), vec![sp(503, 513), sp(523, 533), sp(533, 543)]);
    assert!(IneffectiveExtendTtl.check_fn(true, &body, facts).is_empty());
}

fn nfacts(is_storage: bool, is_address: bool) -> NodeFacts {
    NodeFacts { is_storage, is_address, res_def_id: None }
}

fn storage_write(id: u64) -> (Expr, Vec<(u64, NodeFacts)>) {
    let e = method(id, "set", local(id + 1, 1), vec![local(id + 2, 2), lit(id + 3, 1)]);
    (e, vec![(id + 1, nfacts(true, false)), (id + 2, nfacts(false, true))])
}

fn authorization(id: u64) -> (Expr, Vec<(u64, NodeFacts)>) {
    (method(id, "require_auth", local(id + 1, 2), vec![]), vec![(id + 1, nfacts(false, true))])
}

fn body_of(parts: Vec<(Expr, Vec<(u64, NodeFacts)>)>) -> (Expr, HashMap<u64, NodeFacts>) {
    let mut facts = HashMap::new();
    let mut stmts = Vec::new();
    for (e, fs) in parts {
        for (k, v) in fs {
            facts.insert(k, v);
        }
        stmts.push(e);
    }
    (block(stmts), facts)
}

#[test]
fn storage_writes_reported_unless_every_calling_entrypoint_authorizes() {
    let mut pass = SetContractStorage::new();
    let (b1, f1) = body_of(vec![storage_write(10)]);
    pass.check_fn(1, false, &b1, f1);
    let (b2, f2) = body_of(vec![authorization(20), storage_write(30)]);
    pass.check_fn(2, false, &b2, f2);
    let (b3, f3) = body_of(vec![storage_write(40)]);
    pass.check_fn(3, false, &b3, f3);
    let (b4, f4) = body_of(vec![storage_write(50)]);
    pass.check_fn(4, false, &b4, f4);
    let (b5, f5) = body_of(vec![storage_write(60)]);
    pass.check_fn(5, true, &b5, f5);
    assert!(pass.authorized_functions.contains(&2));
    assert_eq!(pass.unauthorized_storage_calls.len(), 3);

    let graph = vec![(1, vec![4]), (2, vec![3])];
    let entrypoints: HashSet<u64> = [1, 2].into_iter().collect();
    let mut reported = pass.check_crate_post(&graph, &entrypoints);
    reported.sort_by_key(|s| s.lo);
    assert_eq!(reported, vec![sp(10, 11), sp(50, 51)]);
}

#[test]
fn writes_after_an_authorization_are_not_collected() {
    let mut pass = SetContractStorage::new();
    let (b, f) = body_of(vec![storage_write(10), authorization(20), storage_write(30)]);
    pass.check_fn(1, false, &b, f);
    assert!(pass.authorized_functions.contains(&1));
    assert!(pass.unauthorized_storage_calls.is_empty());
}
