use std::collections::HashMap;
use scout_audit::ast::{AttrArgs, Attribute, Item, MacCall, Token, TokenTree};
use scout_audit::avoid_panic_error::AvoidPanicError;
use scout_audit::avoid_vec_map_input::{help_message, AvoidVecMapInput, ParamTy, ParamTyInfo};
use scout_audit::auth_flow::{AuthDomain, AuthFlowAnalysis, FnSummary, Location, SummaryFixpoint, TerminatorEdges};
use scout_audit::admin_auth::{AuthEvent, ParamInfo};
use scout_audit::mir::{BasicBlockData, Operand, Place, Rvalue, Statement, StatementKind, Terminator, TerminatorKind};
use scout_audit::hir::Span;

fn s(x: &str) -> String {
    String::from(x)
}

fn sp(lo: u32, hi: u32) -> Span {
    Span { lo, hi }
}

fn item(attrs: Vec<Attribute>, lo: u32, hi: u32) -> Item {
    Item { attrs, span: sp(lo, hi) }
}

fn named(n: &str) -> Attribute {
    Attribute { name: Some(s(n)), meta_list: None, args: AttrArgs::Empty }
}

fn panic_at(lo: u32) -> MacCall {
    MacCall { path: vec![s("panic")], args: vec![], span: sp(lo, lo + 5) }
}

#[test]
fn panics_outside_tests_are_reported() {
    let mut p = AvoidPanicError::new();
    p.check_item(&item(vec![named("test")], 0, 50));
    p.check_item(&item(vec![named("inline")], 60, 90));
    assert_eq!(p.check_mac(&panic_at(10), true), None);
    assert_eq!(p.check_mac(&panic_at(70), true), Some(sp(70, 75)));
    assert_eq!(p.check_mac(&panic_at(70), false), None);
    let mut qualified = panic_at(70);
    qualified.path = vec![s("std"), s("panic")];
    assert_eq!(p.check_mac(&qualified, true), None);
    let mut other = panic_at(70);
    other.path = vec![s("println")];
    assert_eq!(p.check_mac(&other, true), None);
}

#[test]
fn test_attributes_in_their_three_forms() {
    let mut p = AvoidPanicError::new();
    let cfg_test = Attribute { name: Some(s("cfg")), meta_list: Some(vec![s("test")]), args: AttrArgs::Empty };
    let cfg_other = Attribute { name: Some(s("cfg")), meta_list: Some(vec![s("feature")]), args: AttrArgs::Empty };
    let tokens = Attribute {
        name: Some(s("cfg_attr")),
        meta_list: None,
        args: AttrArgs::Delimited(vec![TokenTree::Token(Token::Ident(s("test"))), TokenTree::Delimited]),
    };
    p.check_item(&item(vec![cfg_other], 0, 10));
    assert!(p.test_spans.is_empty());
    p.check_item(&item(vec![cfg_test], 0, 10));
    p.check_item(&item(vec![tokens], 20, 30));
    assert_eq!(p.test_spans, vec![sp(0, 10), sp(20, 30)]);
    assert_eq!(p.check_mac(&panic_at(22), true), None);
}

fn param(lo: u32, vec: bool, map: bool, name: &str) -> ParamTy {
    ParamTy { span: sp(lo, lo + 1), ty: Some(ParamTyInfo { is_soroban_vec: vec, is_soroban_map: map, name: s(name) }) }
}

#[test]
fn vec_and_map_parameters_of_contract_functions() {
    let mut p = AvoidVecMapInput::new();
    let params = vec![
        param(1, true, false, "soroban_sdk::Vec<u32>"),
        param(2, false, false, "u32"),
        param(3, false, true, "soroban_sdk::Map<u32, u32>"),
        ParamTy { span: sp(4, 5), ty: None },
    ];
    p.check_fn(10, "contract::store", false, &params);
    p.check_fn(11, "contract::helper", false, &vec![param(6, true, false, "soroban_sdk::Vec<u8>")]);
    p.check_fn(12, "contract::generated", true, &vec![param(7, true, false, "soroban_sdk::Vec<u8>")]);
    assert_eq!(p.checked_functions.len(), 3);
    assert_eq!(p.flagged_params.len(), 2);
    let r = p.check_crate_post(&vec![10, 12]);
    assert_eq!(
        r,
        vec![
            (sp(1, 2), help_message("soroban_sdk::Vec<u32>")),
            (sp(3, 4), s("Validate `soroban_sdk::Map<u32, u32>` contents or convert them to contract-defined types before using or storing them.")),
        ]
    );
    assert!(p.check_crate_post(&vec![]).is_empty());
}

fn summary(params: Vec<bool>, admin: bool) -> FnSummary {
    FnSummary { must_auth_params: params, must_auth_current_admin: admin }
}

#[test]
fn summary_fixpoint_runs_rounds_until_nothing_changes() {
    let mut init: HashMap<u64, FnSummary> = HashMap::new();
    init.insert(1, summary(vec![false], false));
    init.insert(2, summary(vec![false], false));
    let mut fp = SummaryFixpoint::new(vec![1, 2], init);
    assert_eq!(fp.next_function(), Some(1));
    fp.record(summary(vec![true], false));
    assert_eq!(fp.next_function(), Some(2));
    fp.record(summary(vec![false], false));
    assert_eq!(fp.next_function(), Some(1));
    fp.record(summary(vec![true], false));
    fp.record(summary(vec![false], false));
    assert_eq!(fp.next_function(), None);
    assert_eq!(fp.summaries[&1].must_auth_params, vec![true]);
    let empty = SummaryFixpoint::new(vec![], HashMap::new());
    assert_eq!(empty.next_function(), None);
}

fn switch_body(assigned: Option<u128>) -> Vec<BasicBlockData> {
    let local = Place { local: 1, projection: 0 };
    vec![BasicBlockData {
        statements: vec![
            Statement { kind: StatementKind::Assign(local, Rvalue::Use(Operand::Constant(None, Some(7)))), span: sp(0, 1) },
            Statement { kind: StatementKind::Assign(local, Rvalue::Use(Operand::Constant(None, assigned))), span: sp(10, 12) },
        ],
        terminator: Some(Terminator {
            kind: TerminatorKind::SwitchInt { discr: Operand::Copy(local), values: vec![0, 1], targets: vec![5, 6, 9] },
            span: sp(20, 21),
        }),
    }]
}

#[test]
fn constant_switches_take_one_target() {
    let params = [ParamInfo { hir_id: 1, is_address: true, is_privileged_name: true }];
    let events = [AuthEvent { param_index: Some(0), span: sp(10, 12), is_current_admin: false }];
    for (assigned, expected) in [(Some(1), TerminatorEdges::Single(6)), (Some(4), TerminatorEdges::Single(9)), (None, TerminatorEdges::All)] {
        let body = switch_body(assigned);
        let analysis = AuthFlowAnalysis::new(&body, &params, &events, &[], HashMap::new());
        let mut state = AuthDomain { unauth_params: vec![true], current_admin_unauth: true };
        let term = body[0].terminator.clone().unwrap();
        let edges = analysis.apply_primary_terminator_effect(&mut state, &body, &term, Location { block: 0, statement_index: 2 });
        assert_eq!(edges, expected);
        let mut state = AuthDomain { unauth_params: vec![true], current_admin_unauth: true };
        analysis.apply_primary_statement_effect(&mut state, Location { block: 0, statement_index: 1 });
        assert_eq!(state.unauth_params, vec![false]);
        assert!(state.current_admin_unauth);
    }
}
