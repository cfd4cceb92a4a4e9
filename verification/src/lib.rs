//! Decision logic of the Scout smart-contract audit detectors, stated over plain
//! values and proved with Verus.
pub mod declarations;
pub mod detector;
pub mod seqs;
pub mod text;
pub mod option_result;
pub mod hir;
pub mod mir;
pub mod divide_before_multiply;
pub mod set_code_hash;
pub mod safety_context;
pub mod weight_name;
pub mod init_constructor;
pub mod alias;
pub mod call_graph;
pub mod admin_auth;
pub mod delegated_spending;
pub mod auth_flow;
pub mod uncached_storage;
pub mod delegate_call;
pub mod dos_revert;
pub mod infinite_recursion;
pub mod set_contract_storage;
pub mod token_interface;
pub mod ineffective_ttl;
pub mod sr25519;
pub mod integer_overflow;
pub mod ink_integer_overflow;
pub mod expr_analyzer;
pub mod ast;
pub mod avoid_panic_error;
pub mod contract_import_dependency;
pub mod avoid_vec_map_input;
pub mod ink_version;
pub mod report;
