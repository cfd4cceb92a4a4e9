# scout-audit

The decision logic of the Scout smart-contract audit detectors (ink!, Soroban and
Substrate pallets), written in Verus: each detector's walk over a function body, its
dataflow transfer functions and its crate-level conclusions are executable functions whose
contracts state exactly what they report, over mathematical models of the syntax tree and
of the MIR that the compiler hands the lint passes.

## Layout

- `src/hir.rs`, `src/mir.rs`, `src/ast.rs`: the models of expressions, MIR bodies and
  pre-expansion items that the passes read.
- One module per detector: `integer_overflow`, `ink_integer_overflow` with
  `safety_context`, `divide_before_multiply`, `set_code_hash`, `delegate_call`,
  `admin_auth` with `auth_flow` (the authorization dataflow), `delegated_spending`,
  `uncached_storage`, `dos_revert`, `infinite_recursion`, `set_contract_storage`,
  `token_interface`, `ineffective_ttl`, `sr25519`, `weight_name`, `init_constructor`,
  `avoid_panic_error`, `avoid_vec_map_input`, `contract_import_dependency`,
  `ink_version`, `option_result`.
- Shared analyses: `alias` (alias resolution), `call_graph` (reachability),
  `expr_analyzer` (structural equivalence of expressions), `seqs`, `text`.
- `declarations`, `detector`, `report`: severities, detector names, and the body of the
  message sent to a listening Scout process.
- Laws are public proof functions named `law_*` beside the functions they relate.
- `app/`: reading the crate manifest, querying crates.io, posting reports, and the
  serialized forms of the declarations.
- `tests/`: scenarios on concrete inputs, one or more per law.

The values that only the compiler can compute (types, constant evaluation, name
resolution, the dataflow fixpoint engine) enter the library as plain inputs: fact tables
keyed by node identifiers, and the flow states at the points the passes read.
