use std::collections::HashMap;
use scout_audit::weight_name::{GlobalState, InconsistentExtrinsicWeightName, TokenTree, WArm, WAttr, WExpr, WImplFn, WPat, WStmt};
use scout_audit::init_constructor::{is_relevant_function, InitInsteadOfConstructor};
use scout_audit::infinite_recursion::InfiniteRecursionOverStorage;
use scout_audit::admin_auth::NodeFacts;
use scout_audit::hir::{Expr, ExprKind, QPath, Res, Span};

fn s(x: &str) -> String {
    String::from(x)
}

fn ident(x: &str) -> TokenTree {
    TokenTree::Ident(s(x))
}

fn weight_attr(span: u64, f: &str) -> WAttr {
    WAttr {
        is_doc_comment: false,
        span,
        tokens: Some(vec![ident("pallet"), TokenTree::Other, ident("weight"), TokenTree::Delimited(vec![ident("T"), ident("WeightInfo"), ident(f)])]),
    }
}

fn arm(variant: &str, weight_fn: &str) -> WArm {
    WArm {
        pat: WPat::SelfStruct { segment: s(variant), has_fields: false, has_rest: false },
        body: WExpr::Block {
            stmts: vec![WStmt::Let {
                binding: Some(s("__pallet_base_weight")),
                init: Some(WExpr::Call { callee: Box::new(WExpr::TypeRelativePath { segment: s(weight_fn) }) }),
            }],
            tail: None,
        },
    }
}

fn dispatch(arms: Vec<WArm>) -> WExpr {
    WExpr::Block {
        stmts: vec![],
        tail: Some(Box::new(WExpr::Match {
            scrutinee: Box::new(WExpr::Deref(Box::new(WExpr::ResolvedPath { segments: vec![s("self")] }))),
            arms,
            normal_source: true,
        })),
    }
}

const DISPATCH: &str = "<pallet::Call<T> as frame_support::dispatch::GetDispatchInfo>::get_dispatch_info";

#[test]
fn extrinsic_weighed_by_another_function_is_reported() {
    let pass = InconsistentExtrinsicWeightName;
    let mut state = GlobalState::new();
    let fns = vec![
        WImplFn { name: s("transfer"), span: 1, attrs: vec![weight_attr(11, "transfer")] },
        WImplFn {
            name: s("burn"),
            span: 2,
            attrs: vec![WAttr { is_doc_comment: true, span: 20, tokens: None }, weight_attr(12, "mint")],
        },
        WImplFn { name: s("noop"), span: 3, attrs: vec![WAttr { is_doc_comment: false, span: 13, tokens: Some(vec![ident("inline")]) }] },
    ];
    pass.check_item(&mut state, &fns);
    assert_eq!(state.functions_needs_reconsideration("burn"), Some((2, 12)));
    assert_eq!(state.functions_needs_reconsideration("transfer"), None);
    assert_eq!(state.functions_needs_reconsideration("noop"), None);
    let body = dispatch(vec![arm("transfer", "transfer"), arm("burn", "mint")]);
    assert_eq!(pass.check_fn(&state, DISPATCH, &body), vec![(2, 12)]);
    assert!(pass.check_fn(&state, "pallet::other", &body).is_empty());
    assert!(pass.check_fn(&GlobalState::new(), DISPATCH, &body).is_empty());
}

#[test]
fn initialization_functions_should_be_constructors() {
    assert!(is_relevant_function("contract::Token::init"));
    assert!(is_relevant_function("contract::Token::initialize"));
    assert!(!is_relevant_function("contract::TokenClient::<'a>::init"));
    assert!(!is_relevant_function("contract::Token::init_pool"));
    let span = Span { lo: 4, hi: 9 };
    assert_eq!(InitInsteadOfConstructor.check_fn("contract::Token::init", span), Some(span));
    assert_eq!(InitInsteadOfConstructor.check_fn("contract::Token::__constructor", span), None);
}

fn call_of(id: u64, callee_def: u64, lo: u32) -> Expr {
    Expr {
        hir_id: id,
        span: Span { lo, hi: lo + 3 },
        kind: ExprKind::Call {
            callee: Box::new(Expr {
                hir_id: id + 1000,
                span: Span { lo, hi: lo + 1 },
                kind: ExprKind::Path(QPath::Resolved { res: Res::Def(callee_def), segments: vec![], has_qualifier: false }),
            }),
            args: vec![],
        },
    }
}

fn facts_for(ids: &[(u64, u64)]) -> HashMap<u64, NodeFacts> {
    let mut m = HashMap::new();
    for (id, def) in ids {
        m.insert(*id, NodeFacts { is_storage: false, is_address: false, res_def_id: Some(*def) });
    }
    m
}

#[test]
fn mutual_recursion_reachable_from_an_entrypoint_is_reported() {
    let mut pass = InfiniteRecursionOverStorage::new();
    // f (1) calls g (2), g calls f, h (3) calls itself but no entrypoint reaches it.
    pass.check_fn(1, "c::f", false, &call_of(10, 2, 100), facts_for(&[(1010, 2)]));
    pass.check_fn(2, "c::g", false, &call_of(20, 1, 200), facts_for(&[(1020, 1)]));
    pass.check_fn(3, "c::h", false, &call_of(30, 3, 300), facts_for(&[(1030, 3)]));
    pass.check_fn(4, "c::gen", true, &call_of(40, 4, 400), facts_for(&[(1040, 4)]));
    assert_eq!(pass.checked_functions.len(), 4);
    assert_eq!(pass.call_edges_with_spans.len(), 3);
    let mut graph: HashMap<u64, Vec<u64>> = HashMap::new();
    graph.insert(1, vec![2]);
    graph.insert(2, vec![1]);
    graph.insert(3, vec![3]);
    let mut r = pass.check_crate_post(&vec![1], &graph);
    r.sort_by_key(|sp| sp.lo);
    assert_eq!(r, vec![Span { lo: 100, hi: 103 }, Span { lo: 200, hi: 203 }]);
    let r = pass.check_crate_post(&vec![3], &graph);
    assert_eq!(r, vec![Span { lo: 300, hi: 303 }]);
    assert!(pass.check_crate_post(&vec![], &graph).is_empty());
}
