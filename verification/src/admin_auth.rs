use vstd::prelude::*;
use std::collections::{HashMap, HashSet};
use std::hash::Hash;
use crate::text::str_eq;
use crate::hir::{Expr, ExprKind, QPath, Res, Stmt, Span};
use crate::alias::{
    spec_strip_identity, strip_identity, is_identity_method, is_identity_method_exec, spec_stripped_id,
    get_expr_hir_id_stripped, aliases_ranked, is_resolution, resolve_alias, spec_resolve_to_param,
    resolve_expr_to_param, lemma_alias_insert_ranked, lemma_resolution_is_chosen,
};

verus! {

broadcast use vstd::std_specs::hash::group_hash_axioms;

/// A parameter of a function: its binding, whether it is an address, and whether its name
/// is that of a privileged role.
#[derive(Debug, Clone, Copy, PartialEq, Eq, Structural)]
pub struct ParamInfo {
    pub hir_id: u64,
    pub is_address: bool,
    pub is_privileged_name: bool,
}

/// A write of a new admin or owner into storage, from a parameter.
#[derive(Debug, Clone, Copy, PartialEq, Eq, Structural)]
pub struct Sink {
    pub param_index: Option<usize>,
    pub span: Span,
}

/// A `require_auth` call on a parameter or on the current admin.
#[derive(Debug, Clone, Copy, PartialEq, Eq, Structural)]
pub struct AuthEvent {
    pub param_index: Option<usize>,
    pub span: Span,
    pub is_current_admin: bool,
}

/// A call of a local function: `arg_to_param[i]` is the caller's parameter that the callee's
/// parameter `i` receives, when it receives one.
#[derive(Debug, Clone, PartialEq, Eq)]
pub struct CallSite {
    pub callee_def_id: u64,
    pub arg_to_param: Vec<Option<usize>>,
    pub span: Span,
}

/// The items the table holds for `key`, or none.
pub open spec fn slice_for<K, V>(m: Map<K, Vec<V>>, key: K) -> Seq<V> {
    if m.dom().contains(key) { m[key]@ } else { seq![] }
}

/// The items stored under `key`, or an empty slice when there are none.
pub fn get_vec_slice<'a, K: Eq + Hash, V>(map: &'a HashMap<K, Vec<V>>, key: &K) -> (r: &'a [V])
    ensures
        vstd::std_specs::hash::obeys_key_model::<K>() ==> r@ == slice_for(map@, *key),
{
    match map.get(key) {
        Some(v) => v.as_slice(),
        None => &[],
    }
}

/// The name of a function's item is `initialize`.
pub fn is_initialize_fn(item_name: Option<&str>) -> (r: bool)
    ensures
        r == (item_name is Some && item_name->0@ == "initialize"@),
{
    match item_name {
        Some(name) => str_eq(name, "initialize"),
        None => false,
    }
}

/// The methods that unwrap an option or result.
pub open spec fn unwrap_methods() -> Seq<Seq<char>> {
    seq!["unwrap"@, "expect"@, "unwrap_or"@, "unwrap_or_else"@, "unwrap_or_default"@]
}

/// The storage getters.
pub open spec fn get_methods() -> Seq<Seq<char>> {
    seq!["get"@, "get_unchecked"@]
}

fn name_in(name: &str, names: &Vec<&str>) -> (r: bool)
    ensures
        r == names@.map_values(|s: &str| s@).contains(name@),
{
    let ghost views = names@.map_values(|s: &str| s@);
    let mut i: usize = 0;
    while i < names.len()
        invariant
            i <= names@.len(),
            views == names@.map_values(|s: &str| s@),
            forall|k: int| 0 <= k < i ==> views[k] != name@,
        decreases names@.len() - i,
    {
        if str_eq(names[i], name) {
            assert(views[i as int] == name@);
            return true;
        }
        i = i + 1;
    }
    false
}

/// Whether the method is one that unwraps an option or result.
pub fn is_unwrap_method(name: &str) -> (r: bool)
    ensures
        r == unwrap_methods().contains(name@),
{
    let names = vec!["unwrap", "expect", "unwrap_or", "unwrap_or_else", "unwrap_or_default"];
    assert(names@.map_values(|s: &str| s@) =~= unwrap_methods());
    name_in(name, &names)
}

/// Whether the method is a storage getter.
pub fn is_get_method(name: &str) -> (r: bool)
    ensures
        r == get_methods().contains(name@),
{
    let names = vec!["get", "get_unchecked"];
    assert(names@.map_values(|s: &str| s@) =~= get_methods());
    name_in(name, &names)
}

/// The Levenshtein edit distance between two strings: the least number of single-character
/// insertions, deletions and substitutions that turn `a` into `b`.
pub open spec fn edit_distance_of(a: Seq<char>, b: Seq<char>) -> nat
    decreases a.len() + b.len(),
{
    if a.len() == 0 {
        b.len()
    } else if b.len() == 0 {
        a.len()
    } else {
        let del = edit_distance_of(a.drop_last(), b) + 1;
        let ins = edit_distance_of(a, b.drop_last()) + 1;
        let sub = edit_distance_of(a.drop_last(), b.drop_last()) + if a.last() == b.last() { 0nat } else { 1nat };
        if del <= ins && del <= sub {
            del
        } else if ins <= sub {
            ins
        } else {
            sub
        }
    }
}

/// Calls `edit_distance::edit_distance`, which the crate documents as the Levenshtein
/// distance between the two strings, counted in characters.
#[verifier::external_body]
pub(crate) fn edit_distance(a: &str, b: &str) -> (r: usize)
    ensures
        r as nat == edit_distance_of(a@, b@),
{
    edit_distance::edit_distance(a, b)
}

/// A character with ASCII upper-case letters mapped to lower case.
pub open spec fn ascii_lower(c: char) -> char {
    if 'A' <= c && c <= 'Z' { ((c as u32) + 32) as char } else { c }
}

/// Calls `str::to_ascii_lowercase`, which maps the ASCII letters `A` to `Z` to lower case
/// and leaves every other character as it is.
#[verifier::external_body]
pub(crate) fn to_ascii_lowercase(s: &str) -> (r: String)
    ensures
        r@ == s@.map_values(|c: char| ascii_lower(c)),
{
    s.to_ascii_lowercase()
}

/// The names of privileged roles.
pub open spec fn privileged_targets() -> Seq<Seq<char>> {
    seq![
        "admin"@, "owner"@, "new_admin"@, "new_owner"@, "newadmin"@, "newowner"@, "next_admin"@,
        "next_owner"@, "nextadmin"@, "nextowner"@, "pending_admin"@, "pending_owner"@,
        "pendingadmin"@, "pendingowner"@,
    ]
}

/// A name is privileged when, in lower case, it is within one edit of a privileged role name.
pub open spec fn spec_is_privileged_name(name: Seq<char>) -> bool {
    exists|i: int| 0 <= i < privileged_targets().len()
        && edit_distance_of(name.map_values(|c: char| ascii_lower(c)), #[trigger] privileged_targets()[i]) <= 1
}

/// Whether a name matches a privileged role (admin, owner, and their new, next and pending
/// forms), allowing one edit.
pub fn is_privileged_name(name: &str) -> (r: bool)
    ensures
        r == spec_is_privileged_name(name@),
{
    let lower = to_ascii_lowercase(name);
    let targets = vec![
        "admin", "owner", "new_admin", "new_owner", "newadmin", "newowner", "next_admin",
        "next_owner", "nextadmin", "nextowner", "pending_admin", "pending_owner",
        "pendingadmin", "pendingowner",
    ];
    assert(targets@.map_values(|s: &str| s@) =~= privileged_targets());
    let mut i: usize = 0;
    while i < targets.len()
        invariant
            i <= targets@.len(),
            targets@.map_values(|s: &str| s@) == privileged_targets(),
            lower@ == name@.map_values(|c: char| ascii_lower(c)),
            forall|k: int| 0 <= k < i ==> edit_distance_of(lower@, #[trigger] privileged_targets()[k]) > 1,
        decreases targets@.len() - i,
    {
        assert(privileged_targets()[i as int] == targets@[i as int]@);
        if edit_distance(lower.as_str(), targets[i]) <= 1 {
            return true;
        }
        i = i + 1;
    }
    false
}

/// A storage key names a privileged role: a borrow of one, or a path to a definition whose
/// last segment is a privileged name.
pub open spec fn spec_is_privileged_key(e: Expr) -> bool
    decreases e,
{
    match e.kind {
        ExprKind::AddrOf(_, x) => spec_is_privileged_key(*x),
        ExprKind::Path(q) => match q {
            QPath::Resolved { res, segments, .. } => res is Def && segments@.len() > 0
                && spec_is_privileged_name(segments@[segments@.len() - 1].name@),
            _ => false,
        },
        _ => false,
    }
}

/// Whether the storage key `e` names a privileged role.
pub fn is_privileged_key(e: &Expr) -> (r: bool)
    ensures
        r == spec_is_privileged_key(*e),
    decreases *e,
{
    match &e.kind {
        ExprKind::AddrOf(_, x) => is_privileged_key(x),
        ExprKind::Path(q) => match q {
            QPath::Resolved { res, segments, .. } => {
                if let Res::Def(_) = res {
                    let n = segments.len();
                    if n > 0 {
                        return is_privileged_name(segments[n - 1].name.as_str());
                    }
                }
                false
            },
            _ => false,
        },
        _ => false,
    }
}

/// What the type checker and name resolution know of a node: whether its type is a storage
/// handle, whether it is an address, and the definition a path resolves to.
#[derive(Debug, Clone, Copy, PartialEq, Eq, Structural)]
pub struct NodeFacts {
    pub is_storage: bool,
    pub is_address: bool,
    pub res_def_id: Option<u64>,
}

/// The facts of `e`; nothing is known of a node that the table does not list.
pub open spec fn node_facts(facts: Map<u64, NodeFacts>, e: Expr) -> NodeFacts {
    if facts.dom().contains(e.hir_id) {
        facts[e.hir_id]
    } else {
        NodeFacts { is_storage: false, is_address: false, res_def_id: None }
    }
}

fn node_facts_exec(facts: &HashMap<u64, NodeFacts>, e: &Expr) -> (r: NodeFacts)
    ensures
        r == node_facts(facts@, *e),
{
    match facts.get(&e.hir_id) {
        Some(f) => *f,
        None => NodeFacts { is_storage: false, is_address: false, res_def_id: None },
    }
}

/// The storage read under `e`: unwrapping and identity calls are passed through to a `get`
/// or `get_unchecked` call; it is a privileged read when its receiver is a storage handle
/// and its first argument a privileged key. Gives the receiver and the key.
pub open spec fn storage_get_of(facts: Map<u64, NodeFacts>, e: Expr) -> Option<(Expr, Expr)>
    decreases e,
{
    match e.kind {
        ExprKind::MethodCall { method, receiver, args, .. } => {
            if unwrap_methods().contains(method@) || is_identity_method(method@) {
                storage_get_of(facts, *receiver)
            } else if get_methods().contains(method@) {
                if args@.len() == 0 {
                    None
                } else if node_facts(facts, *receiver).is_storage && spec_is_privileged_key(args@[0]) {
                    Some((*receiver, args@[0]))
                } else {
                    None
                }
            } else {
                None
            }
        },
        _ => None,
    }
}

/// `e`, once identity operations are stripped, reads a privileged key from storage.
pub open spec fn spec_privileged_storage_get(facts: Map<u64, NodeFacts>, e: Expr) -> Option<(Expr, Expr)> {
    storage_get_of(facts, spec_strip_identity(e))
}

fn storage_get_of_exec<'a>(facts: &HashMap<u64, NodeFacts>, e: &'a Expr) -> (r: Option<(&'a Expr, &'a Expr)>)
    ensures
        r matches Some(p) ==> storage_get_of(facts@, *e) == Some((*p.0, *p.1)),
        r is None ==> storage_get_of(facts@, *e) is None,
    decreases *e,
{
    match &e.kind {
        ExprKind::MethodCall { method, receiver, args, .. } => {
            if is_unwrap_method(method.as_str()) || is_identity_method_exec(method.as_str()) {
                storage_get_of_exec(facts, receiver)
            } else if is_get_method(method.as_str()) {
                if args.len() == 0 {
                    return None;
                }
                let key = &args[0];
                if node_facts_exec(facts, receiver).is_storage && is_privileged_key(key) {
                    Some((&**receiver, key))
                } else {
                    None
                }
            } else {
                None
            }
        },
        _ => None,
    }
}

/// The receiver and key of a privileged storage read that `e` is, if it is one.
pub fn is_privileged_storage_get<'a>(facts: &HashMap<u64, NodeFacts>, e: &'a Expr) -> (r: Option<(&'a Expr, &'a Expr)>)
    ensures
        r matches Some(p) ==> spec_privileged_storage_get(facts@, *e) == Some((*p.0, *p.1)),
        r is None ==> spec_privileged_storage_get(facts@, *e) is None,
{
    storage_get_of_exec(facts, strip_identity(e))
}

/// A parameter of a function body: its pattern's binding, the name it binds if it is a plain
/// binding, and whether its type is an address.
pub struct BodyParam {
    pub pat_hir_id: u64,
    pub binding: Option<String>,
    pub is_address: bool,
}

/// The information kept of a body parameter; a parameter that binds no name has the empty
/// name.
pub open spec fn param_info_of(p: BodyParam) -> ParamInfo {
    ParamInfo {
        hir_id: p.pat_hir_id,
        is_address: p.is_address,
        is_privileged_name: spec_is_privileged_name(match p.binding { Some(n) => n@, None => Seq::<char>::empty() }),
    }
}

/// The information of each parameter, in order.
#[verifier::loop_isolation(false)]
pub fn collect_param_info(params: &Vec<BodyParam>) -> (r: Vec<ParamInfo>)
    ensures
        r@ == params@.map_values(|p: BodyParam| param_info_of(p)),
{
    let mut r: Vec<ParamInfo> = Vec::new();
    let mut i: usize = 0;
    while i < params.len()
        invariant
            i <= params@.len(),
            r@ == params@.subrange(0, i as int).map_values(|p: BodyParam| param_info_of(p)),
        decreases params@.len() - i,
    {
        proof {
            reveal_strlit("");
            assert(""@ =~= Seq::<char>::empty());
        }
        let p = &params[i];
        let privileged = match &p.binding {
            Some(n) => is_privileged_name(n.as_str()),
            None => is_privileged_name(""),
        };
        let info = ParamInfo { hir_id: p.pat_hir_id, is_address: p.is_address, is_privileged_name: privileged };
        assert(info == param_info_of(params@[i as int]));
        r.push(info);
        assert(params@.subrange(0, i + 1).map_values(|p: BodyParam| param_info_of(p))
            =~= params@.subrange(0, i as int).map_values(|p: BodyParam| param_info_of(p)).push(info));
        i = i + 1;
    }
    assert(params@.subrange(0, params@.len() as int) =~= params@);
    r
}

/// The index of each parameter binding; when two parameters share a binding, the later one.
pub open spec fn params_index(ps: Seq<ParamInfo>) -> Map<u64, usize>
    decreases ps.len(),
{
    if ps.len() == 0 {
        Map::empty()
    } else {
        params_index(ps.subrange(0, ps.len() - 1)).insert(ps[ps.len() - 1].hir_id, (ps.len() - 1) as usize)
    }
}

/// Every index in the table is that of a parameter with that binding.
pub proof fn lemma_params_index_valid(ps: Seq<ParamInfo>, k: u64)
    requires
        params_index(ps).dom().contains(k),
        ps.len() <= usize::MAX,
    ensures
        params_index(ps)[k] < ps.len(),
        ps[params_index(ps)[k] as int].hir_id == k,
    decreases ps.len(),
{
    if ps.len() > 0 {
        let p = ps.subrange(0, ps.len() - 1);
        if ps[ps.len() - 1].hir_id != k {
            lemma_params_index_valid(p, k);
            assert(p[params_index(p)[k] as int] == ps[params_index(p)[k] as int]);
        }
    }
}

/// The table from parameter bindings to their indices.
#[verifier::loop_isolation(false)]
pub fn index_params(params: &Vec<ParamInfo>) -> (r: HashMap<u64, usize>)
    ensures
        r@ == params_index(params@),
{
    let mut r: HashMap<u64, usize> = HashMap::new();
    let mut i: usize = 0;
    while i < params.len()
        invariant
            i <= params@.len(),
            r@ == params_index(params@.subrange(0, i as int)),
        decreases params@.len() - i,
    {
        r.insert(params[i].hir_id, i);
        proof {
            let q = params@.subrange(0, i + 1);
            assert(q.subrange(0, q.len() - 1) =~= params@.subrange(0, i as int));
        }
        i = i + 1;
    }
    assert(params@.subrange(0, params@.len() as int) =~= params@);
    r
}

/// A call site, by value.
pub struct CallSiteView {
    pub callee_def_id: u64,
    pub arg_to_param: Seq<Option<usize>>,
    pub span: Span,
}

/// The value of a call site.
pub open spec fn call_site_view(c: CallSite) -> CallSiteView {
    CallSiteView { callee_def_id: c.callee_def_id, arg_to_param: c.arg_to_param@, span: c.span }
}

/// What the admin walk reads and does not change: the parameters, their index, and the facts
/// of the nodes.
pub struct AdminCtx {
    pub params: Seq<ParamInfo>,
    pub param_by_hir: Map<u64, usize>,
    pub facts: Map<u64, NodeFacts>,
}

/// What the admin walk has gathered: aliases of parameters and admin locals, the locals
/// holding the current admin, the writes of a new admin, the authorizations and the calls.
pub struct AdminScan {
    pub aliases: Map<u64, u64>,
    pub admins: Set<u64>,
    pub sinks: Seq<Sink>,
    pub events: Seq<AuthEvent>,
    pub calls: Seq<CallSiteView>,
}

/// The caller's parameter index that `e` traces back to.
pub open spec fn arg_param(c: AdminCtx, aliases: Map<u64, u64>, e: Expr) -> Option<usize> {
    match spec_resolve_to_param(e, aliases, c.param_by_hir) {
        Some(h) => Some(c.param_by_hir[h]),
        None => None,
    }
}

/// What a call `expr` of `callee` with `args` records: a call site when the callee is a path
/// that resolves to a definition.
pub open spec fn call_effect(c: AdminCtx, s: AdminScan, expr: Expr, callee: Expr, args: Seq<Expr>) -> AdminScan {
    match callee.kind {
        ExprKind::Path(_) => match node_facts(c.facts, callee).res_def_id {
            Some(d) => AdminScan {
                calls: s.calls.push(CallSiteView {
                    callee_def_id: d,
                    arg_to_param: args.map_values(|a: Expr| arg_param(c, s.aliases, a)),
                    span: expr.span,
                }),
                ..s
            },
            None => s,
        },
        _ => s,
    }
}

/// What a method call `expr` records: a `set` of a privileged key on storage, whose value is
/// an address parameter with a privileged name, is a sink; a `require_auth` or
/// `require_auth_for_args` on an address that is a parameter or holds the current admin is an
/// authorization.
pub open spec fn method_effect(c: AdminCtx, s: AdminScan, expr: Expr, method: Seq<char>, receiver: Expr, args: Seq<Expr>) -> AdminScan {
    let rf = node_facts(c.facts, receiver);
    let s1 = if method == "set"@ && rf.is_storage && args.len() >= 2 && spec_is_privileged_key(args[0]) {
        match spec_resolve_to_param(args[1], s.aliases, c.param_by_hir) {
            Some(h) => {
                let pi = c.param_by_hir[h];
                if (pi as int) < c.params.len() && c.params[pi as int].is_address && c.params[pi as int].is_privileged_name {
                    AdminScan { sinks: s.sinks.push(Sink { param_index: Some(pi), span: expr.span }), ..s }
                } else {
                    s
                }
            },
            None => s,
        }
    } else {
        s
    };
    if (method == "require_auth"@ || method == "require_auth_for_args"@) && rf.is_address {
        match spec_stripped_id(receiver) {
            Some(local) => {
                let resolved = choose|r: u64| is_resolution(s1.aliases, local, r);
                let pi = if c.param_by_hir.dom().contains(resolved) { Some(c.param_by_hir[resolved]) } else { None };
                let adm = s1.admins.contains(resolved);
                if pi is Some || adm {
                    AdminScan { events: s1.events.push(AuthEvent { param_index: pi, span: expr.span, is_current_admin: adm }), ..s1 }
                } else {
                    s1
                }
            },
            None => s1,
        }
    } else {
        s1
    }
}

/// What `let pat = init` records before its initializer is visited: a binding initialized by a
/// privileged storage read holds the current admin; a binding initialized by a parameter or
/// an admin local, through aliases, becomes its alias.
pub open spec fn local_effect(c: AdminCtx, s: AdminScan, pat: u64, binding: Option<String>, init: Option<Expr>) -> AdminScan {
    match init {
        Some(i) => if binding is Some {
            let s1 = if spec_privileged_storage_get(c.facts, i) is Some {
                AdminScan { admins: s.admins.insert(pat), ..s }
            } else {
                s
            };
            match spec_stripped_id(i) {
                Some(local) => {
                    let resolved = choose|r: u64| is_resolution(s1.aliases, local, r);
                    if c.param_by_hir.dom().contains(resolved) || s1.admins.contains(resolved) {
                        AdminScan { aliases: s1.aliases.insert(pat, resolved), ..s1 }
                    } else {
                        s1
                    }
                },
                None => s1,
            }
        } else {
            s
        },
        None => s,
    }
}

/// Visiting `e`: a called closure's body, then the call site, then the method-call effects,
/// then the parts of `e`.
pub open spec fn admin_visit(c: AdminCtx, e: Expr, s: AdminScan) -> AdminScan
    decreases e, 1nat,
{
    let s1 = match e.kind {
        ExprKind::Call { callee, args } => {
            let s0 = match callee.kind {
                ExprKind::Closure(body) => admin_visit(c, *body, s),
                _ => s,
            };
            call_effect(c, s0, e, *callee, args@)
        },
        _ => s,
    };
    let s2 = match e.kind {
        ExprKind::MethodCall { method, receiver, args, .. } => method_effect(c, s1, e, method@, *receiver, args@),
        _ => s1,
    };
    admin_walk(c, e, s2)
}

/// Visiting the parts of `e` in the order of the compiler's walk; `let` statements are
/// visited as locals.
pub open spec fn admin_walk(c: AdminCtx, e: Expr, s: AdminScan) -> AdminScan
    decreases e, 0nat,
{
    match e.kind {
        ExprKind::Lit(_) => s,
        ExprKind::Path(_) => s,
        ExprKind::Binary(_, l, r) => admin_visit(c, *r, admin_visit(c, *l, s)),
        ExprKind::AssignOp(_, l, r) => admin_visit(c, *l, admin_visit(c, *r, s)),
        ExprKind::Assign(l, r) => admin_visit(c, *l, admin_visit(c, *r, s)),
        ExprKind::Unary(_, x) => admin_visit(c, *x, s),
        ExprKind::AddrOf(_, x) => admin_visit(c, *x, s),
        ExprKind::DropTemps(x) => admin_visit(c, *x, s),
        ExprKind::Cast(x, _) => admin_visit(c, *x, s),
        ExprKind::MethodCall { receiver, args, .. } => admin_visit_seq(c, args@, admin_visit(c, *receiver, s)),
        ExprKind::Call { callee, args } => admin_visit_seq(c, args@, admin_visit(c, *callee, s)),
        ExprKind::Block { stmts, tail } => {
            let s1 = admin_visit_stmts(c, stmts@, s);
            match tail {
                Some(t) => admin_visit(c, *t, s1),
                None => s1,
            }
        },
        ExprKind::If { cond, then, els } => {
            let s1 = admin_visit(c, *then, admin_visit(c, *cond, s));
            match els {
                Some(x) => admin_visit(c, *x, s1),
                None => s1,
            }
        },
        ExprKind::Let { init, .. } => admin_visit(c, *init, s),
        ExprKind::Closure(_) => s,
        ExprKind::Other(cs) => admin_visit_seq(c, cs@, s),
    }
}

/// Visiting a sequence of expressions in order.
pub open spec fn admin_visit_seq(c: AdminCtx, es: Seq<Expr>, s: AdminScan) -> AdminScan
    decreases es, 0nat,
{
    if es.len() == 0 {
        s
    } else {
        admin_visit(c, es[es.len() - 1], admin_visit_seq(c, es.subrange(0, es.len() - 1), s))
    }
}

/// Visiting a block's statements in order.
pub open spec fn admin_visit_stmts(c: AdminCtx, ss: Seq<Stmt>, s: AdminScan) -> AdminScan
    decreases ss, 0nat,
{
    if ss.len() == 0 {
        s
    } else {
        let s0 = admin_visit_stmts(c, ss.subrange(0, ss.len() - 1), s);
        match ss[ss.len() - 1] {
            Stmt::Let { pat_hir_id, binding, init } => {
                let s1 = local_effect(c, s0, pat_hir_id, binding, init);
                match init {
                    Some(i) => admin_visit(c, i, s1),
                    None => s1,
                }
            },
            Stmt::Expr(x) => admin_visit(c, x, s0),
            Stmt::Item => s0,
        }
    }
}

/// The walk over a function body that gathers the sinks, authorizations and call sites that
/// the admin check composes.
pub struct MissingNewAdminAuthVisitor {
    pub facts: HashMap<u64, NodeFacts>,
    pub params: Vec<ParamInfo>,
    pub param_by_hir: HashMap<u64, usize>,
    pub sinks: Vec<Sink>,
    pub auth_events: Vec<AuthEvent>,
    pub aliases: HashMap<u64, u64>,
    pub current_admin_locals: HashSet<u64>,
    pub call_sites: Vec<CallSite>,
    pub alias_rank: Ghost<Map<u64, nat>>,
    pub alias_bound: Ghost<nat>,
}

impl MissingNewAdminAuthVisitor {
    /// What the walk reads.
    pub open spec fn ctx(&self) -> AdminCtx {
        AdminCtx { params: self.params@, param_by_hir: self.param_by_hir@, facts: self.facts@ }
    }

    /// What the walk has gathered.
    pub open spec fn state(&self) -> AdminScan {
        AdminScan {
            aliases: self.aliases@,
            admins: self.current_admin_locals@,
            sinks: self.sinks@,
            events: self.auth_events@,
            calls: self.call_sites@.map_values(|cs: CallSite| call_site_view(cs)),
        }
    }

    /// The index matches the parameters, and following aliases stops.
    pub open spec fn inv(&self) -> bool {
        &&& self.param_by_hir@ == params_index(self.params@)
        &&& aliases_ranked(self.aliases@, self.alias_rank@, self.alias_bound@)
    }

    /// A walk over a body with parameters `params`, with nothing gathered.
    pub fn new(facts: HashMap<u64, NodeFacts>, params: Vec<ParamInfo>) -> (r: MissingNewAdminAuthVisitor)
        ensures
            r.inv(),
            r.ctx() == (AdminCtx { params: params@, param_by_hir: params_index(params@), facts: facts@ }),
            r.state() == (AdminScan {
                aliases: Map::empty(),
                admins: Set::empty(),
                sinks: Seq::empty(),
                events: Seq::empty(),
                calls: Seq::empty(),
            }),
    {
        let param_by_hir = index_params(&params);
        let r = MissingNewAdminAuthVisitor {
            facts,
            params,
            param_by_hir,
            sinks: Vec::new(),
            auth_events: Vec::new(),
            aliases: HashMap::new(),
            current_admin_locals: HashSet::new(),
            call_sites: Vec::new(),
            alias_rank: Ghost(Map::empty()),
            alias_bound: Ghost(0),
        };
        assert(r.state().calls =~= Seq::<CallSiteView>::empty());
        assert(r.state().sinks =~= Seq::<Sink>::empty());
        assert(r.state().events =~= Seq::<AuthEvent>::empty());
        r
    }

    fn arg_param_exec(&self, e: &Expr) -> (r: Option<usize>)
        requires
            self.inv(),
        ensures
            r == arg_param(self.ctx(), self.aliases@, *e),
    {
        match resolve_expr_to_param(e, &self.aliases, &self.param_by_hir) {
            Some(h) => match self.param_by_hir.get(&h) {
                Some(i) => Some(*i),
                None => None,
            },
            None => None,
        }
    }

    #[verifier::loop_isolation(false)]
    fn record_call(&mut self, expr: &Expr, callee: &Expr, args: &Vec<Expr>)
        requires
            old(self).inv(),
        ensures
            final(self).inv(),
            final(self).ctx() == old(self).ctx(),
            final(self).state() == call_effect(old(self).ctx(), old(self).state(), *expr, *callee, args@),
    {
        if let ExprKind::Path(_) = &callee.kind {
            if let Some(d) = node_facts_exec(&self.facts, callee).res_def_id {
                let ghost c = self.ctx();
                let ghost al = self.aliases@;
                let mut arg_to_param: Vec<Option<usize>> = Vec::new();
                let mut j: usize = 0;
                while j < args.len()
                    invariant
                        j <= args@.len(),
                        arg_to_param@ == args@.subrange(0, j as int).map_values(|a: Expr| arg_param(c, al, a)),
                    decreases args@.len() - j,
                {
                    let x = self.arg_param_exec(&args[j]);
                    arg_to_param.push(x);
                    assert(args@.subrange(0, j + 1).map_values(|a: Expr| arg_param(c, al, a))
                        =~= args@.subrange(0, j as int).map_values(|a: Expr| arg_param(c, al, a)).push(x));
                    j = j + 1;
                }
                assert(args@.subrange(0, args@.len() as int) =~= args@);
                let ghost before = self.call_sites@;
                let site = CallSite { callee_def_id: d, arg_to_param, span: expr.span };
                self.call_sites.push(site);
                assert(self.call_sites@.map_values(|cs: CallSite| call_site_view(cs))
                    =~= before.map_values(|cs: CallSite| call_site_view(cs)).push(call_site_view(site)));
            }
        }
    }

    fn record_method(&mut self, expr: &Expr, method: &String, receiver: &Expr, args: &Vec<Expr>)
        requires
            old(self).inv(),
        ensures
            final(self).inv(),
            final(self).ctx() == old(self).ctx(),
            final(self).state() == method_effect(old(self).ctx(), old(self).state(), *expr, method@, *receiver, args@),
    {
        proof {
            reveal_strlit("set");
            reveal_strlit("require_auth");
            reveal_strlit("require_auth_for_args");
        }
        let rf = node_facts_exec(&self.facts, receiver);
        if str_eq(method.as_str(), "set") && rf.is_storage && args.len() >= 2 && is_privileged_key(&args[0]) {
            if let Some(h) = resolve_expr_to_param(&args[1], &self.aliases, &self.param_by_hir) {
                if let Some(pi) = self.param_by_hir.get(&h) {
                    let pi = *pi;
                    if pi < self.params.len() && self.params[pi].is_address && self.params[pi].is_privileged_name {
                        self.sinks.push(Sink { param_index: Some(pi), span: expr.span });
                    }
                }
            }
        }
        if (str_eq(method.as_str(), "require_auth") || str_eq(method.as_str(), "require_auth_for_args")) && rf.is_address {
            if let Some(local) = get_expr_hir_id_stripped(receiver) {
                let resolved = resolve_alias(local, &self.aliases);
                proof {
                    lemma_resolution_is_chosen(self.aliases@, local, resolved);
                }
                let param_index = match self.param_by_hir.get(&resolved) {
                    Some(i) => Some(*i),
                    None => None,
                };
                let is_current_admin = self.current_admin_locals.contains(&resolved);
                if param_index.is_some() || is_current_admin {
                    self.auth_events.push(AuthEvent { param_index, span: expr.span, is_current_admin });
                }
            }
        }
    }

    /// What `let pat = init` records, before the initializer is visited.
    pub fn visit_local(&mut self, pat_hir_id: u64, binding: &Option<String>, init: &Option<Expr>)
        requires
            old(self).inv(),
        ensures
            final(self).inv(),
            final(self).ctx() == old(self).ctx(),
            final(self).state() == local_effect(old(self).ctx(), old(self).state(), pat_hir_id, *binding, *init),
    {
        if let Some(i) = init {
            if binding.is_some() {
                if is_privileged_storage_get(&self.facts, i).is_some() {
                    self.current_admin_locals.insert(pat_hir_id);
                }
                if let Some(local) = get_expr_hir_id_stripped(i) {
                    let resolved = resolve_alias(local, &self.aliases);
                    proof {
                        lemma_resolution_is_chosen(self.aliases@, local, resolved);
                    }
                    if self.param_by_hir.contains_key(&resolved) || self.current_admin_locals.contains(&resolved) {
                        proof {
                            lemma_alias_insert_ranked(self.aliases@, self.alias_rank@, self.alias_bound@, pat_hir_id, resolved);
                        }
                        self.aliases.insert(pat_hir_id, resolved);
                        self.alias_rank = Ghost(self.alias_rank@.insert(pat_hir_id, self.alias_bound@ + 1));
                        self.alias_bound = Ghost(self.alias_bound@ + 1);
                    }
                }
            }
        }
    }

    /// Visits `e`, as [`admin_visit`] states.
    pub fn visit_expr(&mut self, e: &Expr)
        requires
            old(self).inv(),
        ensures
            final(self).inv(),
            final(self).ctx() == old(self).ctx(),
            final(self).state() == admin_visit(old(self).ctx(), *e, old(self).state()),
        decreases *e, 1nat,
    {
        if let ExprKind::Call { callee, args } = &e.kind {
            if let ExprKind::Closure(body) = &callee.kind {
                self.visit_expr(body);
            }
            self.record_call(e, callee, args);
        }
        if let ExprKind::MethodCall { method, receiver, args, .. } = &e.kind {
            self.record_method(e, method, receiver, args);
        }
        self.walk_expr(e);
    }

    fn walk_expr(&mut self, e: &Expr)
        requires
            old(self).inv(),
        ensures
            final(self).inv(),
            final(self).ctx() == old(self).ctx(),
            final(self).state() == admin_walk(old(self).ctx(), *e, old(self).state()),
        decreases *e, 0nat,
    {
        match &e.kind {
            ExprKind::Lit(_) => {},
            ExprKind::Path(_) => {},
            ExprKind::Binary(_, l, r) => {
                self.visit_expr(l);
                self.visit_expr(r);
            },
            ExprKind::AssignOp(_, l, r) => {
                self.visit_expr(r);
                self.visit_expr(l);
            },
            ExprKind::Assign(l, r) => {
                self.visit_expr(r);
                self.visit_expr(l);
            },
            ExprKind::Unary(_, x) => self.visit_expr(x),
            ExprKind::AddrOf(_, x) => self.visit_expr(x),
            ExprKind::DropTemps(x) => self.visit_expr(x),
            ExprKind::Cast(x, _) => self.visit_expr(x),
            ExprKind::MethodCall { receiver, args, .. } => {
                self.visit_expr(receiver);
                self.visit_exprs(args);
            },
            ExprKind::Call { callee, args } => {
                self.visit_expr(callee);
                self.visit_exprs(args);
            },
            ExprKind::Block { stmts, tail } => {
                self.visit_stmts(stmts);
                if let Some(t) = tail {
                    self.visit_expr(t);
                }
            },
            ExprKind::If { cond, then, els } => {
                self.visit_expr(cond);
                self.visit_expr(then);
                if let Some(x) = els {
                    self.visit_expr(x);
                }
            },
            ExprKind::Let { init, .. } => self.visit_expr(init),
            ExprKind::Closure(_) => {},
            ExprKind::Other(cs) => self.visit_exprs(cs),
        }
    }

    #[verifier::loop_isolation(false)]
    fn visit_exprs(&mut self, es: &Vec<Expr>)
        requires
            old(self).inv(),
        ensures
            final(self).inv(),
            final(self).ctx() == old(self).ctx(),
            final(self).state() == admin_visit_seq(old(self).ctx(), es@, old(self).state()),
        decreases *es, 0nat,
    {
        let ghost c = self.ctx();
        let ghost s0 = self.state();
        let mut i: usize = 0;
        while i < es.len()
            invariant
                i <= es@.len(),
                self.inv(),
                self.ctx() == c,
                self.state() == admin_visit_seq(c, es@.subrange(0, i as int), s0),
            decreases es@.len() - i,
        {
            proof {
                assert(decreases_to!(*es => es@));
                assert(decreases_to!(es@ => es@[i as int]));
                let p = es@.subrange(0, i + 1);
                assert(p.subrange(0, p.len() - 1) =~= es@.subrange(0, i as int));
            }
            self.visit_expr(&es[i]);
            i = i + 1;
        }
        assert(es@.subrange(0, es@.len() as int) =~= es@);
    }

    #[verifier::loop_isolation(false)]
    fn visit_stmts(&mut self, stmts: &Vec<Stmt>)
        requires
            old(self).inv(),
        ensures
            final(self).inv(),
            final(self).ctx() == old(self).ctx(),
            final(self).state() == admin_visit_stmts(old(self).ctx(), stmts@, old(self).state()),
        decreases *stmts, 0nat,
    {
        let ghost c = self.ctx();
        let ghost s0 = self.state();
        let mut i: usize = 0;
        while i < stmts.len()
            invariant
                i <= stmts@.len(),
                self.inv(),
                self.ctx() == c,
                self.state() == admin_visit_stmts(c, stmts@.subrange(0, i as int), s0),
            decreases stmts@.len() - i,
        {
            proof {
                let p = stmts@.subrange(0, i + 1);
                assert(p.subrange(0, p.len() - 1) =~= stmts@.subrange(0, i as int));
                assert(p[p.len() - 1] == stmts@[i as int]);
                assert(decreases_to!(*stmts => stmts@));
                assert(decreases_to!(stmts@ => stmts@[i as int]));
            }
            match &stmts[i] {
                Stmt::Let { pat_hir_id, binding, init } => {
                    self.visit_local(*pat_hir_id, binding, init);
                    if let Some(x) = init {
                        proof {
                            assert(decreases_to!(stmts@[i as int] => stmts@[i as int]->Let_init));
                        }
                        self.visit_expr(x);
                    }
                },
                Stmt::Expr(x) => {
                    self.visit_expr(x);
                },
                Stmt::Item => {},
            }
            i = i + 1;
        }
        assert(stmts@.subrange(0, stmts@.len() as int) =~= stmts@);
    }
}

/// `new` is `old` with the items of `k` set to `s`.
pub open spec fn vec_map_updated<V>(old: Map<u64, Vec<V>>, new: Map<u64, Vec<V>>, k: u64, s: Seq<V>) -> bool {
    &&& new.dom() == old.dom().insert(k)
    &&& new[k]@ == s
    &&& forall|j: u64| j != k && #[trigger] old.dom().contains(j) ==> new[j] == old[j]
}

/// The per-function data the admin check gathers over a crate.
pub struct MissingNewAdminAuth {
    pub checked_functions: Vec<(String, u64)>,
    pub params: HashMap<u64, Vec<ParamInfo>>,
    pub sinks: HashMap<u64, Vec<Sink>>,
    pub auth_events: HashMap<u64, Vec<AuthEvent>>,
    pub call_sites: HashMap<u64, Vec<CallSite>>,
}

impl MissingNewAdminAuth {
    /// Nothing gathered.
    pub fn new() -> (r: MissingNewAdminAuth)
        ensures
            r.checked_functions@.len() == 0,
            r.params@.dom().is_empty(),
            r.sinks@.dom().is_empty(),
            r.auth_events@.dom().is_empty(),
            r.call_sites@.dom().is_empty(),
    {
        MissingNewAdminAuth {
            checked_functions: Vec::new(),
            params: HashMap::new(),
            sinks: HashMap::new(),
            auth_events: HashMap::new(),
            call_sites: HashMap::new(),
        }
    }

    /// Gathers the data of the function `def_id` (path `def_path`, item name `item_name`):
    /// an `initialize` function is left out; a function from a macro expansion is only
    /// recorded as checked; any other has its parameters, sinks, authorizations and call
    /// sites stored, as a walk over its body finds them.
    pub fn check_fn(
        &mut self,
        def_id: u64,
        item_name: Option<&str>,
        def_path: String,
        from_expansion: bool,
        body: &Expr,
        body_params: &Vec<BodyParam>,
        facts: HashMap<u64, NodeFacts>,
    )
        ensures
            ({
                let is_init = item_name is Some && item_name->0@ == "initialize"@;
                let pinfo = body_params@.map_values(|p: BodyParam| param_info_of(p));
                let c = AdminCtx { params: pinfo, param_by_hir: params_index(pinfo), facts: facts@ };
                let st = admin_visit(c, *body, AdminScan {
                    aliases: Map::empty(), admins: Set::empty(), sinks: Seq::empty(), events: Seq::empty(), calls: Seq::empty(),
                });
                if is_init {
                    final(self).checked_functions@ == old(self).checked_functions@
                    && final(self).params@ == old(self).params@
                    && final(self).sinks@ == old(self).sinks@
                    && final(self).auth_events@ == old(self).auth_events@
                    && final(self).call_sites@ == old(self).call_sites@
                } else if from_expansion {
                    final(self).checked_functions@ == old(self).checked_functions@.push((def_path, def_id))
                    && final(self).params@ == old(self).params@
                    && final(self).sinks@ == old(self).sinks@
                    && final(self).auth_events@ == old(self).auth_events@
                    && final(self).call_sites@ == old(self).call_sites@
                } else {
                    &&& final(self).checked_functions@ == old(self).checked_functions@.push((def_path, def_id))
                    &&& vec_map_updated(old(self).params@, final(self).params@, def_id, pinfo)
                    &&& vec_map_updated(old(self).sinks@, final(self).sinks@, def_id, st.sinks)
                    &&& vec_map_updated(old(self).auth_events@, final(self).auth_events@, def_id, st.events)
                    &&& final(self).call_sites@.dom() == old(self).call_sites@.dom().insert(def_id)
                    &&& final(self).call_sites@[def_id]@.map_values(|cs: CallSite| call_site_view(cs)) == st.calls
                    &&& forall|j: u64| j != def_id && #[trigger] old(self).call_sites@.dom().contains(j)
                        ==> final(self).call_sites@[j] == old(self).call_sites@[j]
                }
            }),
    {
        if is_initialize_fn(item_name) {
            return;
        }
        self.checked_functions.push((def_path, def_id));
        if from_expansion {
            return;
        }
        let params_info = collect_param_info(body_params);
        let params_copy = collect_param_info(body_params);
        let mut visitor = MissingNewAdminAuthVisitor::new(facts, params_copy);
        visitor.visit_expr(body);
        let ghost calls = visitor.call_sites@;
        self.call_sites.insert(def_id, visitor.call_sites);
        self.params.insert(def_id, params_info);
        self.sinks.insert(def_id, visitor.sinks);
        self.auth_events.insert(def_id, visitor.auth_events);
        proof {
            assert(self.params@.dom() =~= old(self).params@.dom().insert(def_id));
            assert(self.sinks@.dom() =~= old(self).sinks@.dom().insert(def_id));
            assert(self.auth_events@.dom() =~= old(self).auth_events@.dom().insert(def_id));
            assert(self.call_sites@.dom() =~= old(self).call_sites@.dom().insert(def_id));
        }
    }
}

} // verus!
