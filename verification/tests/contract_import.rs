use scout_audit::ast::{AttrArgs, Attribute, Item, MacCall, Token, TokenTree};
use scout_audit::contract_import_dependency::{
    after_last_slash_exec, dependency_names, trim_wasm, ContractImportDependency, ImportFinding, TomlValue,
};
use scout_audit::hir::Span;

fn s(x: &str) -> String {
    String::from(x)
}

fn table(entries: Vec<(&str, TomlValue)>) -> TomlValue {
    TomlValue::Table(entries.into_iter().map(|(k, v)| (s(k), v)).collect())
}

fn manifest() -> TomlValue {
    table(vec![
        ("package", table(vec![("name", TomlValue::String(s("app")))])),
        (
            "dependencies",
            table(vec![
                ("soroban-sdk", TomlValue::String(s("21.0.0"))),
                ("token", table(vec![("path", TomlValue::String(s("../token")))])),
                ("alias", table(vec![("package", TomlValue::String(s("real-name"))), ("path", TomlValue::String(s("../x")))])),
            ]),
        ),
        ("build-dependencies", table(vec![("liquidity-pool", TomlValue::Other(s("{ path = \"../lp\" }")))])),
    ])
}

fn import(path: &str, lo: u32) -> MacCall {
    MacCall {
        path: vec![s("soroban_sdk"), s("contractimport")],
        args: vec![
            TokenTree::Token(Token::Ident(s("file"))),
            TokenTree::Token(Token::Other),
            TokenTree::Token(Token::StrLit(s(path))),
        ],
        span: Span { lo, hi: lo + 10 },
    }
}

fn loaded() -> ContractImportDependency {
    let mut pass = ContractImportDependency::new();
    pass.load_cargo_dependencies(Some(&manifest()));
    pass
}

#[test]
fn path_pieces() {
    assert_eq!(after_last_slash_exec("a/b/c.wasm"), "c.wasm");
    assert_eq!(after_last_slash_exec("c.wasm"), "c.wasm");
    assert_eq!(after_last_slash_exec("a/b/"), "");
    assert_eq!(trim_wasm("c.wasm"), "c");
    assert_eq!(trim_wasm("c.wasm.wasm"), "c");
    assert_eq!(trim_wasm("c.wasmx"), "c.wasmx");
}

#[test]
fn dependency_names_of_manifest() {
    let mut names = dependency_names(&manifest());
    names.sort();
    assert_eq!(names, vec![s("liquidity-pool"), s("real-name"), s("soroban-sdk"), s("token")]);
    assert!(dependency_names(&TomlValue::String(s("x"))).is_empty());
}

#[test]
fn loading_twice_leaves_an_empty_set() {
    let mut pass = loaded();
    assert_eq!(pass.cargo_dependencies.as_ref().map(|d| d.len()), Some(4));
    pass.load_cargo_dependencies(Some(&manifest()));
    assert_eq!(pass.cargo_dependencies.as_ref().map(|d| d.len()), Some(0));
    let mut missing = ContractImportDependency::new();
    missing.load_cargo_dependencies(None);
    assert_eq!(missing.cargo_dependencies.as_ref().map(|d| d.len()), Some(0));
}

#[test]
fn contract_info_from_first_wasm_literal() {
    let m = import("../target/wasm32-unknown-unknown/release/deps/liquidity_pool.wasm", 0);
    assert_eq!(ContractImportDependency::extract_contract_info_from_macro(&m), Some((s("liquidity_pool"), true)));
    let m = import("../target/release/token.wasm", 0);
    assert_eq!(ContractImportDependency::extract_contract_info_from_macro(&m), Some((s("token"), false)));
    let m = import("../target/release/.wasm", 0);
    assert_eq!(ContractImportDependency::extract_contract_info_from_macro(&m), None);
    let m = import("../target/release/token.txt", 0);
    assert_eq!(ContractImportDependency::extract_contract_info_from_macro(&m), None);
}

#[test]
fn hyphenated_dependency_matches_underscored_contract() {
    let pass = loaded();
    assert!(pass.is_contract_in_dependencies("liquidity_pool"));
    assert!(pass.is_contract_in_dependencies("token"));
    assert!(pass.is_contract_in_dependencies("real_name"));
    assert!(!pass.is_contract_in_dependencies("alias"));
    assert!(!pass.is_contract_in_dependencies("other"));
    assert!(!ContractImportDependency::new().is_contract_in_dependencies("token"));
}

#[test]
fn tracked_import_through_deps_is_not_reported() {
    let pass = loaded();
    let m = import("../target/wasm32-unknown-unknown/release/deps/liquidity_pool.wasm", 0);
    assert!(pass.check_mac(&m).is_empty());
}

#[test]
fn untracked_import_outside_deps_gets_both_findings() {
    let pass = loaded();
    let m = import("../wasm/oracle.wasm", 0);
    let r = pass.check_mac(&m);
    assert_eq!(r.len(), 2);
    match &r[0] {
        ImportFinding::NotADependency(n) => assert_eq!(n, "oracle"),
        _ => panic!("expected a missing dependency first"),
    }
    assert_eq!(
        r[0].help_message(),
        "Add 'oracle' as a dependency in Cargo.toml: `oracle = { path = \"../path/to/oracle\" }`"
    );
    assert_eq!(
        r[0].lint_message(),
        "The `contractimport!` macro embeds another contract's WASM without tracking it as a dependency."
    );
    assert_eq!(r[1].help_message(), "Use the correct path pattern for contractimport: '/release/deps/oracle.wasm'");
    assert_eq!(r[1].lint_message(), "The `contractimport!` macro should use the /release/deps/ path pattern.");
}

#[test]
fn tracked_import_outside_deps_gets_the_path_finding() {
    let pass = loaded();
    let r = pass.check_mac(&import("../target/release/token.wasm", 0));
    assert_eq!(r.len(), 1);
    assert!(matches!(&r[0], ImportFinding::NotDepsPath(n) if n.as_str() == "token"));
}

#[test]
fn imports_inside_tests_and_other_macros_are_ignored() {
    let mut pass = loaded();
    let test_item = Item {
        attrs: vec![Attribute {
            name: Some(s("cfg")),
            meta_list: Some(vec![s("test")]),
            args: AttrArgs::Delimited(vec![TokenTree::Token(Token::Ident(s("test")))]),
        }],
        span: Span { lo: 100, hi: 200 },
    };
    pass.check_item(&test_item);
    assert!(pass.check_mac(&import("../wasm/oracle.wasm", 120)).is_empty());
    assert_eq!(pass.check_mac(&import("../wasm/oracle.wasm", 300)).len(), 2);
    let mut other = import("../wasm/oracle.wasm", 0);
    other.path = vec![s("include_bytes")];
    assert!(pass.check_mac(&other).is_empty());
}
