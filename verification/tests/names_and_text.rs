use scout_audit::declarations::{Severity, VulnerabilityClass};
use scout_audit::detector::{InkDetector, SorobanDetector};
use scout_audit::hir::BinOpKind;
use scout_audit::text::{str_contains, str_ends_with, str_eq, str_starts_with};
use scout_audit::admin_auth::{is_initialize_fn, is_privileged_name};
use scout_audit::token_interface::verify_token_interface_function_similarity;
use scout_audit::report::vulnerability_body;

#[test]
fn severity_and_class_display_names() {
    assert_eq!(Severity::Enhancement.as_ref(), "Enhancement");
    assert_eq!(Severity::Critical.as_ref(), "Critical");
    assert_eq!(VulnerabilityClass::BestPractices.as_ref(), "Best Practices");
    assert_eq!(VulnerabilityClass::ResourceManagement.as_ref(), "Resource Management");
    assert_eq!(VulnerabilityClass::DoS.as_ref(), "DoS");
}

#[test]
fn detector_names_are_kebab_case() {
    assert_eq!(SorobanDetector::UnprotectedUpdateCurrentContractWasm.name(), "unprotected-update-current-contract-wasm");
    assert_eq!(SorobanDetector::AvoidPanicError.name(), "avoid-panic-error");
    assert_eq!(InkDetector::Reentrancy1.name(), "reentrancy-1");
    assert_eq!(InkDetector::Reentrancy2.name(), "reentrancy-2");
    assert_eq!(InkDetector::DosUnexpectedRevertWithVector.name(), "dos-unexpected-revert-with-vector");
}

#[test]
fn detector_lists_are_complete_and_ordered() {
    let s = SorobanDetector::all();
    assert_eq!(s.len(), 13);
    assert_eq!(s[0], SorobanDetector::AvoidCoreMemForget);
    assert_eq!(s[12], SorobanDetector::UnusedReturnEnum);
    let i = InkDetector::all();
    assert_eq!(i.len(), 24);
    assert_eq!(i[0], InkDetector::AssertViolation);
    assert_eq!(i[23], InkDetector::ZeroOrTestAddress);
}

#[test]
fn operator_texts() {
    assert_eq!(BinOpKind::Add.as_str(), "+");
    assert_eq!(BinOpKind::Shl.as_str(), "<<");
    assert_eq!(BinOpKind::Ne.as_str(), "!=");
    assert_eq!(BinOpKind::And.as_str(), "&&");
}

#[test]
fn string_predicates() {
    assert!(str_eq("abc", "abc"));
    assert!(!str_eq("abc", "abd"));
    assert!(str_contains("x/release/deps/y", "/release/deps/"));
    assert!(!str_contains("x/release/y", "/release/deps/"));
    assert!(str_contains("abc", ""));
    assert!(str_ends_with("c.wasm", ".wasm"));
    assert!(!str_ends_with("wasm", ".wasm"));
    assert!(str_starts_with("panic!", "panic"));
}

#[test]
fn initialize_functions() {
    assert!(is_initialize_fn(Some("initialize")));
    assert!(!is_initialize_fn(Some("init")));
    assert!(!is_initialize_fn(None));
}

#[test]
fn privileged_names_allow_one_edit_in_any_case() {
    assert!(is_privileged_name("admin"));
    assert!(is_privileged_name("ADMIN"));
    assert!(is_privileged_name("admn"));
    assert!(is_privileged_name("New_Owner"));
    assert!(is_privileged_name("pendingadmins"));
    assert!(!is_privileged_name("adm"));
    assert!(!is_privileged_name("user"));
}

#[test]
fn token_interface_similarity() {
    assert_eq!(verify_token_interface_function_similarity("Token::Transfer_From"), Some(4));
    assert_eq!(verify_token_interface_function_similarity("NAME"), Some(8));
    assert_eq!(verify_token_interface_function_similarity("decimal"), Some(7));
    assert_eq!(verify_token_interface_function_similarity("allowances"), Some(0));
    assert_eq!(verify_token_interface_function_similarity("balance_of"), None);
    assert_eq!(verify_token_interface_function_similarity("mint"), None);
}

#[test]
fn vulnerability_bodies() {
    assert_eq!(vulnerability_body("{\"level\": \"warning\"}", "token"), "{\"crate\":\"token\",\"message\":{\"level\":\"warning\"}}");
    assert_eq!(vulnerability_body("warning: plain text", "token"), "warning: plain text");
    assert_eq!(vulnerability_body("[1, 2]", ""), "{\"crate\":\"\",\"message\":[1,2]}");
    assert_eq!(
        vulnerability_body(" 7 ", "a\"b\\c\n\u{1}\u{1f}\u{7f}é"),
        "{\"crate\":\"a\\\"b\\\\c\\n\\u0001\\u001f\u{7f}é\",\"message\":7}"
    );
}
