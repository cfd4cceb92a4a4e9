//! `contractimport!` of a contract's WASM that the manifest does not track as a dependency,
//! or that does not come from the `/release/deps/` build output.
use vstd::prelude::*;
use crate::hir::Span;
use crate::ast::{Item, MacCall, Token, TokenTree, spec_test_item, within_any, is_within_any, is_test_item};
use crate::text::{seq_contains, seq_ends_with, str_contains, str_ends_with, str_eq, names_contain, push_name};

verus! {

/// A TOML value, by what the pass reads of it.
pub enum TomlValue {
    String(String),
    /// A table, as its entries; a table's keys are distinct.
    Table(Vec<(String, TomlValue)>),
    /// Any other value, by its TOML text.
    Other(String),
}

/// The value of key `k` among the entries of a table.
pub open spec fn table_get(es: Seq<(String, TomlValue)>, k: Seq<char>) -> Option<TomlValue> {
    if exists|i: int| 0 <= i < es.len() && (#[trigger] es[i]).0@ == k {
        Some(es[choose|i: int| 0 <= i < es.len() && (#[trigger] es[i]).0@ == k && forall|j: int| 0 <= j < i ==> (#[trigger] es[j]).0@ != k].1)
    } else {
        None
    }
}

/// The package a dependency entry names: its `package` key when the entry is a table whose
/// `package` is a string, else the entry's key.
pub open spec fn spec_dep_name(key: String, value: TomlValue) -> Seq<char> {
    match value {
        TomlValue::Table(es) => match table_get(es@, "package"@) {
            Some(TomlValue::String(p)) => p@,
            _ => key@,
        },
        _ => key@,
    }
}

/// One of the first `n` entries names package `x`.
pub open spec fn names_upto(es: Seq<(String, TomlValue)>, n: int, x: Seq<char>) -> bool {
    exists|i: int| 0 <= i < n && spec_dep_name((#[trigger] es[i]).0, es[i].1) == x
}

/// The manifest's table `t` is a table with an entry naming package `x`.
pub open spec fn dep_in(manifest: TomlValue, t: Seq<char>, x: Seq<char>) -> bool {
    match manifest {
        TomlValue::Table(top) => match table_get(top@, t) {
            Some(TomlValue::Table(es)) => names_upto(es@, es@.len() as int, x),
            _ => false,
        },
        _ => false,
    }
}

proof fn lemma_names_upto_step(es: Seq<(String, TomlValue)>, n: int, x: Seq<char>)
    requires
        0 <= n < es.len(),
    ensures
        names_upto(es, n + 1, x) == (names_upto(es, n, x) || spec_dep_name(es[n].0, es[n].1) == x),
{
    if names_upto(es, n + 1, x) {
        let j = choose|j: int| 0 <= j < n + 1 && spec_dep_name((#[trigger] es[j]).0, es[j].1) == x;
        if j < n {
            assert(names_upto(es, n, x));
        }
    }
    if names_upto(es, n, x) {
        let j = choose|j: int| 0 <= j < n && spec_dep_name((#[trigger] es[j]).0, es[j].1) == x;
        assert(spec_dep_name(es[j].0, es[j].1) == x);
    }
}

/// Package `x` is a dependency or a build dependency of the manifest.
pub open spec fn is_manifest_dep(manifest: TomlValue, x: Seq<char>) -> bool {
    dep_in(manifest, "dependencies"@, x) || dep_in(manifest, "build-dependencies"@, x)
}


/// The value of key `k` among the entries of a table.
pub fn table_lookup<'a>(es: &'a Vec<(String, TomlValue)>, k: &str) -> (r: Option<&'a TomlValue>)
    ensures
        r matches Some(v) ==> table_get(es@, k@) == Some(*v),
        r is None ==> table_get(es@, k@) is None,
{
    let mut i: usize = 0;
    while i < es.len()
        invariant
            i <= es@.len(),
            forall|j: int| 0 <= j < i ==> (#[trigger] es@[j]).0@ != k@,
        decreases es@.len() - i,
    {
        if str_eq(es[i].0.as_str(), k) {
            proof {
                let c = choose|c: int| 0 <= c < es@.len() && (#[trigger] es@[c]).0@ == k@ && forall|j: int| 0 <= j < c ==> (#[trigger] es@[j]).0@ != k@;
                if c < i {
                    assert(es@[c].0@ != k@);
                } else if c > i {
                    assert(es@[i as int].0@ != k@);
                }
            }
            return Some(&es[i].1);
        }
        i = i + 1;
    }
    None
}


#[verifier::loop_isolation(false)]
fn add_table_names(manifest: &TomlValue, t: &str, r: &mut Vec<String>)
    ensures
        forall|x: Seq<char>| names_contain(final(r)@, x) <==> (names_contain(old(r)@, x) || dep_in(*manifest, t@, x)),
{
    if let TomlValue::Table(top) = manifest {
        if let Some(TomlValue::Table(es)) = table_lookup(top, t) {
            let ghost r0 = r@;
            let mut i: usize = 0;
            while i < es.len()
                invariant
                    i <= es@.len(),
                    forall|x: Seq<char>| names_contain(r@, x) <==> (names_contain(r0, x) || names_upto(es@, i as int, x)),
                decreases es@.len() - i,
            {
                let key = &es[i].0;
                let value = &es[i].1;
                let mut name: &str = key.as_str();
                if let TomlValue::Table(inner) = value {
                    if let Some(TomlValue::String(p)) = table_lookup(inner, "package") {
                        name = p.as_str();
                    }
                }
                assert(name@ == spec_dep_name(es@[i as int].0, es@[i as int].1));
                push_name(r, name);
                assert forall|x: Seq<char>| names_contain(r@, x) <==> (names_contain(r0, x) || names_upto(es@, i + 1, x)) by {
                    lemma_names_upto_step(es@, i as int, x);
                }
                i = i + 1;
            }
            assert forall|x: Seq<char>| dep_in(*manifest, t@, x) == names_upto(es@, es@.len() as int, x) by {}
            return;
        }
    }
}

/// The packages the manifest declares as dependencies or build dependencies, each once.
pub fn dependency_names(manifest: &TomlValue) -> (r: Vec<String>)
    ensures
        forall|x: Seq<char>| names_contain(r@, x) <==> is_manifest_dep(*manifest, x),
{
    let mut r: Vec<String> = Vec::new();
    add_table_names(manifest, "dependencies", &mut r);
    add_table_names(manifest, "build-dependencies", &mut r);
    r
}

/// The position just after the last `/` of `s`, or 0 when it has none.
pub open spec fn last_slash_end(s: Seq<char>) -> int
    decreases s.len(),
{
    if s.len() == 0 {
        0
    } else if s.last() == '/' {
        s.len() as int
    } else {
        last_slash_end(s.drop_last())
    }
}

/// The text after the last `/` of `s`, or all of `s`.
pub open spec fn after_last_slash(s: Seq<char>) -> Seq<char> {
    s.subrange(last_slash_end(s), s.len() as int)
}

/// `s` with every trailing `p` removed.
pub open spec fn trim_end_all(s: Seq<char>, p: Seq<char>) -> Seq<char>
    decreases s.len(),
{
    if p.len() > 0 && seq_ends_with(s, p) {
        trim_end_all(s.subrange(0, s.len() - p.len()), p)
    } else {
        s
    }
}

proof fn lemma_last_slash_end_bounds(s: Seq<char>)
    ensures
        0 <= last_slash_end(s) <= s.len(),
    decreases s.len(),
{
    if s.len() > 0 && s.last() != '/' {
        lemma_last_slash_end_bounds(s.drop_last());
    }
}

/// The text after the last `/` of a path.
pub fn after_last_slash_exec(s: &str) -> (r: &str)
    ensures
        r@ == after_last_slash(s@),
{
    let n = s.unicode_len();
    let mut k: usize = 0;
    let mut i: usize = 0;
    while i < n
        invariant
            n == s@.len(),
            i <= n,
            k == last_slash_end(s@.subrange(0, i as int)),
            k <= i,
        decreases n - i,
    {
        proof {
            assert(s@.subrange(0, i + 1).drop_last() =~= s@.subrange(0, i as int));
        }
        if s.get_char(i) == '/' {
            k = i + 1;
        }
        i = i + 1;
    }
    assert(s@.subrange(0, n as int) =~= s@);
    s.substring_char(k, n)
}

/// A path with every trailing `.wasm` removed.
pub fn trim_wasm(s: &str) -> (r: &str)
    ensures
        r@ == trim_end_all(s@, ".wasm"@),
{
    proof {
        reveal_strlit(".wasm");
    }
    let mut cur: &str = s;
    while str_ends_with(cur, ".wasm")
        invariant
            trim_end_all(cur@, ".wasm"@) == trim_end_all(s@, ".wasm"@),
            ".wasm"@.len() == 5,
        decreases cur@.len(),
    {
        let n = cur.unicode_len();
        cur = cur.substring_char(0, n - 5);
    }
    cur
}

/// What a token says of an imported contract: for a plain string literal that holds
/// `.wasm` and whose file name, every trailing `.wasm` removed, is not empty, that name and
/// whether the path holds `/release/deps/`.
pub open spec fn spec_token_contract_info(t: TokenTree) -> Option<(Seq<char>, bool)> {
    match t {
        TokenTree::Token(Token::StrLit(p)) => {
            let name = trim_end_all(after_last_slash(p@), ".wasm"@);
            if seq_contains(p@, ".wasm"@) && name.len() > 0 {
                Some((name, seq_contains(p@, "/release/deps/"@)))
            } else {
                None
            }
        },
        _ => None,
    }
}

/// What the first token from position `i` on that names an imported contract says of it.
pub open spec fn spec_contract_info_from(ts: Seq<TokenTree>, i: int) -> Option<(Seq<char>, bool)>
    decreases ts.len() - i,
{
    if i < 0 || i >= ts.len() {
        None
    } else {
        match spec_token_contract_info(ts[i]) {
            Some(x) => Some(x),
            None => spec_contract_info_from(ts, i + 1),
        }
    }
}

/// `d` is `name` with every `_` turned into `-`.
pub open spec fn is_normalized_of(d: Seq<char>, name: Seq<char>) -> bool {
    d.len() == name.len() && forall|i: int| 0 <= i < d.len() ==> d[i] == (if name[i] == '_' { '-' } else { name[i] })
}

/// `name`, or `name` with every `_` turned into `-`, is among the dependencies.
pub open spec fn spec_in_dependencies(deps: Option<Vec<String>>, name: Seq<char>) -> bool {
    match deps {
        Some(d) => exists|i: int| 0 <= i < d@.len() && ((#[trigger] d@[i])@ == name || is_normalized_of(d@[i]@, name)),
        None => false,
    }
}

fn normalized_eq(d: &str, name: &str) -> (r: bool)
    ensures
        r == is_normalized_of(d@, name@),
{
    let n = name.unicode_len();
    if d.unicode_len() != n {
        return false;
    }
    let mut i: usize = 0;
    while i < n
        invariant
            n == name@.len(),
            n == d@.len(),
            i <= n,
            forall|j: int| 0 <= j < i ==> d@[j] == (if name@[j] == '_' { '-' } else { name@[j] }),
        decreases n - i,
    {
        let c = name.get_char(i);
        let e = if c == '_' { '-' } else { c };
        if d.get_char(i) != e {
            return false;
        }
        i = i + 1;
    }
    true
}

/// A finding on a `contractimport!`, with the name of the imported contract.
pub enum ImportFinding {
    /// The manifest does not declare the contract as a dependency.
    NotADependency(String),
    /// The path does not go through `/release/deps/`.
    NotDepsPath(String),
}

/// The findings on a `contractimport!` whose path names `name`: first whether it is not a
/// dependency, then whether the path does not go through `/release/deps/`.
pub open spec fn spec_findings(in_deps: bool, uses_deps_path: bool, name: Seq<char>) -> Seq<(bool, Seq<char>)> {
    let a: Seq<(bool, Seq<char>)> = if in_deps { seq![] } else { seq![(true, name)] };
    if uses_deps_path { a } else { a.push((false, name)) }
}

/// A finding as its kind (`true` for a missing dependency) and the contract's name.
pub open spec fn finding_view(f: ImportFinding) -> (bool, Seq<char>) {
    match f {
        ImportFinding::NotADependency(n) => (true, n@),
        ImportFinding::NotDepsPath(n) => (false, n@),
    }
}

/// The main message of a finding.
pub open spec fn spec_lint_message(f: ImportFinding) -> Seq<char> {
    match f {
        ImportFinding::NotADependency(_) => "The `contractimport!` macro embeds another contract's WASM without tracking it as a dependency."@,
        ImportFinding::NotDepsPath(_) => "The `contractimport!` macro should use the /release/deps/ path pattern."@,
    }
}

/// The help of a finding, which names the contract.
pub open spec fn spec_help_message(f: ImportFinding) -> Seq<char> {
    match f {
        ImportFinding::NotADependency(n) => "Add '"@ + n@ + "' as a dependency in Cargo.toml: `"@ + n@ + " = { path = \"../path/to/"@ + n@
            + "\" }`"@,
        ImportFinding::NotDepsPath(n) => "Use the correct path pattern for contractimport: '/release/deps/"@ + n@ + ".wasm'"@,
    }
}

impl ImportFinding {
    /// The main message of the finding.
    pub fn lint_message(&self) -> (r: &'static str)
        ensures
            r@ == spec_lint_message(*self),
    {
        match self {
            ImportFinding::NotADependency(_) => "The `contractimport!` macro embeds another contract's WASM without tracking it as a dependency.",
            ImportFinding::NotDepsPath(_) => "The `contractimport!` macro should use the /release/deps/ path pattern.",
        }
    }

    /// The help of the finding.
    pub fn help_message(&self) -> (r: String)
        ensures
            r@ == spec_help_message(*self),
    {
        match self {
            ImportFinding::NotADependency(n) => {
                let r = String::from_str("Add '").concat(n.as_str()).concat("' as a dependency in Cargo.toml: `").concat(
                    n.as_str(),
                ).concat(" = { path = \"../path/to/").concat(n.as_str()).concat("\" }`");
                r
            },
            ImportFinding::NotDepsPath(n) => {
                String::from_str("Use the correct path pattern for contractimport: '/release/deps/").concat(n.as_str()).concat(".wasm'")
            },
        }
    }
}

/// The lint pass: the spans of the test items seen so far and, once loaded, the packages the
/// manifest declares as dependencies.
pub struct ContractImportDependency {
    pub test_spans: Vec<Span>,
    pub cargo_dependencies: Option<Vec<String>>,
}

/// Package `x` is a dependency of the manifest, when there is one.
pub open spec fn manifest_has(manifest: Option<&TomlValue>, x: Seq<char>) -> bool {
    match manifest {
        Some(m) => is_manifest_dep(*m, x),
        None => false,
    }
}

/// The findings on a macro invocation, given the test spans and the dependencies: none
/// unless it is a `contractimport!` outside every test item whose arguments name a contract.
pub open spec fn spec_check_mac(test_spans: Seq<Span>, deps: Option<Vec<String>>, mac: MacCall) -> Seq<(bool, Seq<char>)> {
    if spec_is_contractimport(mac) && !within_any(test_spans, mac.span) {
        match spec_contract_info_from(mac.args@, 0) {
            Some((name, deps_path)) => spec_findings(spec_in_dependencies(deps, name), deps_path, name),
            None => seq![],
        }
    } else {
        seq![]
    }
}

/// The macro's last path segment is `contractimport`.
pub open spec fn spec_is_contractimport(mac: MacCall) -> bool {
    mac.path@.len() > 0 && mac.path@.last()@ == "contractimport"@
}

impl ContractImportDependency {
    /// A pass that has seen no test item and loaded no manifest.
    pub fn new() -> (r: Self)
        ensures
            r.test_spans@ == Seq::<Span>::empty(),
            r.cargo_dependencies is None,
    {
        ContractImportDependency { test_spans: Vec::new(), cargo_dependencies: None }
    }

    /// Whether the macro's last path segment is `contractimport`.
    pub fn is_contractimport_macro(mac: &MacCall) -> (r: bool)
        ensures
            r == spec_is_contractimport(*mac),
    {
        let n = mac.path.len();
        n > 0 && str_eq(mac.path[n - 1].as_str(), "contractimport")
    }

    /// Loads the dependencies from the manifest, when one could be read and parsed: a pass
    /// that has none yet takes the manifest's packages; a pass that has them, or a missing
    /// manifest, leaves an empty set.
    pub fn load_cargo_dependencies(&mut self, manifest: Option<&TomlValue>)
        ensures
            final(self).test_spans == old(self).test_spans,
            final(self).cargo_dependencies is Some,
            forall|x: Seq<char>| names_contain(final(self).cargo_dependencies->0@, x) <==> (
                old(self).cargo_dependencies is None && manifest_has(manifest, x)),
    {
        let mut deps: Vec<String> = Vec::new();
        if self.cargo_dependencies.is_none() {
            if let Some(m) = manifest {
                deps = dependency_names(m);
            }
        }
        self.cargo_dependencies = Some(deps);
    }

    /// What the first token of the macro's arguments that names an imported contract says of
    /// it: the contract's name and whether the path goes through `/release/deps/`.
    #[verifier::loop_isolation(false)]
    pub fn extract_contract_info_from_macro(mac: &MacCall) -> (r: Option<(String, bool)>)
        ensures
            match r {
                Some((n, b)) => spec_contract_info_from(mac.args@, 0) == Some((n@, b)),
                None => spec_contract_info_from(mac.args@, 0) is None,
            },
    {
        proof {
            reveal_strlit(".wasm");
        }
        let mut i: usize = 0;
        while i < mac.args.len()
            invariant
                i <= mac.args@.len(),
                spec_contract_info_from(mac.args@, 0) == spec_contract_info_from(mac.args@, i as int),
            decreases mac.args@.len() - i,
        {
            if let TokenTree::Token(Token::StrLit(p)) = &mac.args[i] {
                if str_contains(p.as_str(), ".wasm") {
                    let filename = after_last_slash_exec(p.as_str());
                    let name = trim_wasm(filename);
                    if name.unicode_len() > 0 {
                        let uses_deps_path = str_contains(p.as_str(), "/release/deps/");
                        return Some((String::from_str(name), uses_deps_path));
                    }
                }
            }
            i = i + 1;
        }
        None
    }

    /// Whether the contract, or its name with `_` turned into `-`, is among the loaded
    /// dependencies.
    #[verifier::loop_isolation(false)]
    pub fn is_contract_in_dependencies(&self, contract_name: &str) -> (r: bool)
        ensures
            r == spec_in_dependencies(self.cargo_dependencies, contract_name@),
    {
        match &self.cargo_dependencies {
            Some(d) => {
                let mut i: usize = 0;
                while i < d.len()
                    invariant
                        i <= d@.len(),
                        forall|j: int| 0 <= j < i ==> !((#[trigger] d@[j])@ == contract_name@ || is_normalized_of(d@[j]@, contract_name@)),
                    decreases d@.len() - i,
                {
                    if str_eq(d[i].as_str(), contract_name) || normalized_eq(d[i].as_str(), contract_name) {
                        return true;
                    }
                    i = i + 1;
                }
                false
            },
            None => false,
        }
    }

    /// Visits an item: a test item's span is remembered.
    pub fn check_item(&mut self, item: &Item)
        ensures
            final(self).cargo_dependencies == old(self).cargo_dependencies,
            final(self).test_spans@ == if spec_test_item(*item) {
                old(self).test_spans@.push(item.span)
            } else {
                old(self).test_spans@
            },
    {
        if is_test_item(item) {
            self.test_spans.push(item.span);
        }
    }

    /// Visits a macro invocation: for a `contractimport!` outside every test item seen so
    /// far whose arguments name a contract, the findings on it, reported at the macro's span.
    pub fn check_mac(&self, mac: &MacCall) -> (r: Vec<ImportFinding>)
        ensures
            r@.map_values(|f: ImportFinding| finding_view(f)) == spec_check_mac(self.test_spans@, self.cargo_dependencies, *mac),
    {
        let mut r: Vec<ImportFinding> = Vec::new();
        if !Self::is_contractimport_macro(mac) {
            assert(r@.map_values(|f: ImportFinding| finding_view(f)) =~= seq![]);
            return r;
        }
        if is_within_any(&self.test_spans, mac.span) {
            assert(r@.map_values(|f: ImportFinding| finding_view(f)) =~= seq![]);
            return r;
        }
        match Self::extract_contract_info_from_macro(mac) {
            Some((contract_name, uses_deps_path)) => {
                let is_in_deps = self.is_contract_in_dependencies(contract_name.as_str());
                if !is_in_deps {
                    r.push(ImportFinding::NotADependency(contract_name.clone()));
                }
                if !uses_deps_path {
                    r.push(ImportFinding::NotDepsPath(contract_name));
                }
                assert(r@.map_values(|f: ImportFinding| finding_view(f)) =~= spec_findings(is_in_deps, uses_deps_path, contract_name@));
                r
            },
            None => {
                assert(r@.map_values(|f: ImportFinding| finding_view(f)) =~= seq![]);
                r
            },
        }
    }
}


/// A contract that the manifest declares as a dependency, under its own name, is found among
/// the dependencies loaded from that manifest; so is one whose name, with `_` turned into `-`,
/// the manifest declares.
pub proof fn law_declared_dependency_found(deps: Vec<String>, manifest: TomlValue, name: Seq<char>, declared: Seq<char>)
    requires
        forall|x: Seq<char>| names_contain(deps@, x) <==> is_manifest_dep(manifest, x),
        is_manifest_dep(manifest, declared),
        declared == name || is_normalized_of(declared, name),
    ensures
        spec_in_dependencies(Some(deps), name),
{
    assert(names_contain(deps@, declared));
    let i = choose|i: int| 0 <= i < deps@.len() && (#[trigger] deps@[i])@ == declared;
    let o: Option<Vec<String>> = Some(deps);
    match o {
        Some(d) => {
            assert(d@[i]@ == name || is_normalized_of(d@[i]@, name));
        },
        None => {},
    }
}

/// A `contractimport!` is reported for a missing dependency exactly when the contract is not
/// among the dependencies, and for its path exactly when the path does not go through
/// `/release/deps/`; nothing is reported inside a test item.
pub proof fn law_import_checks(test_spans: Seq<Span>, deps: Option<Vec<String>>, mac: MacCall, name: Seq<char>, deps_path: bool)
    requires
        spec_is_contractimport(mac),
        spec_contract_info_from(mac.args@, 0) == Some((name, deps_path)),
    ensures
        within_any(test_spans, mac.span) ==> spec_check_mac(test_spans, deps, mac).len() == 0,
        !within_any(test_spans, mac.span) ==> (spec_check_mac(test_spans, deps, mac).contains((true, name))
            <==> !spec_in_dependencies(deps, name)),
        !within_any(test_spans, mac.span) ==> (spec_check_mac(test_spans, deps, mac).contains((false, name))
            <==> !deps_path),
{
    let r = spec_check_mac(test_spans, deps, mac);
    if !within_any(test_spans, mac.span) {
        let a: Seq<(bool, Seq<char>)> = if spec_in_dependencies(deps, name) { seq![] } else { seq![(true, name)] };
        if !spec_in_dependencies(deps, name) {
            assert(r[0] == (true, name));
        }
        if !deps_path {
            assert(r[r.len() - 1] == (false, name));
        }
        if r.contains((true, name)) {
            let i = choose|i: int| 0 <= i < r.len() && r[i] == (true, name);
            assert(r[i] == (true, name));
        }
        if r.contains((false, name)) {
            let i = choose|i: int| 0 <= i < r.len() && r[i] == (false, name);
            assert(r[i] == (false, name));
        }
    }
}

} // verus!
