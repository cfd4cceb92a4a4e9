use std::collections::HashMap;
use scout_audit::uncached_storage::{StorageFacts, UncachedStorageModification};
use scout_audit::hir::{Expr, ExprKind, LitKind, QPath, Res, Span, Stmt};

fn sp(lo: u32, hi: u32) -> Span {
    Span { lo, hi }
}

fn local(id: u64, binding: u64) -> Expr {
    Expr {
        hir_id: id,
        span: sp(id as u32, id as u32 + 1),
        kind: ExprKind::Path(QPath::Resolved { res: Res::Local(binding), segments: vec![], has_qualifier: false }),
    }
}

fn call(id: u64, method: &str, receiver: Expr, args: Vec<Expr>) -> Expr {
    Expr {
        hir_id: id,
        span: sp(id as u32 * 10, id as u32 * 10 + 9),
        kind: ExprKind::MethodCall { method: String::from(method), receiver: Box::new(receiver), args, call_span: sp(id as u32 * 10 + 1, id as u32 * 10 + 9) },
    }
}

fn borrow(id: u64, mutable: bool, x: Expr) -> Expr {
    Expr { hir_id: id, span: x.span, kind: ExprKind::AddrOf(mutable, Box::new(x)) }
}

fn read(get_id: u64, unwrap_id: u64, storage_id: u64) -> Expr {
    call(unwrap_id, "unwrap", call(get_id, "get", local(storage_id, 7), vec![borrow(get_id + 100, false, local(get_id + 200, 50))]), vec![])
}

fn facts() -> HashMap<u64, StorageFacts> {
    let mut f = HashMap::new();
    for id in [1u64, 11, 21] {
        f.insert(id, StorageFacts { is_storage: true, takes_mut_self: false });
    }
    f.insert(6, StorageFacts { is_storage: false, takes_mut_self: true });
    f
}

fn body(stmts: Vec<Stmt>) -> Expr {
    Expr { hir_id: 999, span: sp(0, 1000), kind: ExprKind::Block { stmts, tail: None } }
}

#[test]
fn modified_copy_read_again_is_reported() {
    // let v = storage.get(&key).unwrap(); v.push(1); let w = storage.get(&key).unwrap();
    let b = body(vec![
        Stmt::Let { pat_hir_id: 100, binding: Some(String::from("v")), init: Some(read(2, 3, 1)) },
        Stmt::Expr(call(6, "push", local(5, 100), vec![Expr { hir_id: 8, span: sp(8, 9), kind: ExprKind::Lit(LitKind::Int(1)) }])),
        Stmt::Let { pat_hir_id: 101, binding: Some(String::from("w")), init: Some(read(12, 13, 11)) },
    ]);
    let r = UncachedStorageModification.check_fn(&b, facts());
    assert_eq!(r, vec![(sp(121, 129), sp(60, 69))]);
}

#[test]
fn writing_the_copy_back_clears_it() {
    // let v = storage.get(&key).unwrap(); v.push(1); storage.set(&key, &v); storage.get(&key)
    let b = body(vec![
        Stmt::Let { pat_hir_id: 100, binding: Some(String::from("v")), init: Some(read(2, 3, 1)) },
        Stmt::Expr(call(6, "push", local(5, 100), vec![])),
        Stmt::Expr(call(22, "set", local(21, 7), vec![borrow(24, false, local(25, 50)), borrow(26, false, local(27, 100))])),
        Stmt::Let { pat_hir_id: 101, binding: Some(String::from("w")), init: Some(read(12, 13, 11)) },
    ]);
    assert!(UncachedStorageModification.check_fn(&b, facts()).is_empty());
}

#[test]
fn unmodified_copy_is_not_reported() {
    let b = body(vec![
        Stmt::Let { pat_hir_id: 100, binding: Some(String::from("v")), init: Some(read(2, 3, 1)) },
        Stmt::Let { pat_hir_id: 101, binding: Some(String::from("w")), init: Some(read(12, 13, 11)) },
    ]);
    assert!(UncachedStorageModification.check_fn(&b, facts()).is_empty());
}
