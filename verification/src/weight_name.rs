use vstd::prelude::*;
use crate::text::str_eq;

verus! {

/// A token tree of an attribute, as far as the weight check reads it.
pub enum TokenTree {
    /// A delimited group of trees.
    Delimited(Vec<TokenTree>),
    /// An identifier token.
    Ident(String),
    /// Any other token.
    Other,
}

/// The identifiers of a sequence of token trees, in order, entering delimited groups.
pub open spec fn idents_of_seq(trees: Seq<TokenTree>) -> Seq<Seq<char>>
    decreases trees,
{
    if trees.len() == 0 {
        seq![]
    } else {
        idents_of(trees[0]) + idents_of_seq(trees.subrange(1, trees.len() as int))
    }
}

/// The identifiers of a token tree, in order.
pub open spec fn idents_of(t: TokenTree) -> Seq<Seq<char>>
    decreases t,
{
    match t {
        TokenTree::Delimited(children) => idents_of_seq(children@),
        TokenTree::Ident(s) => seq![s@],
        TokenTree::Other => seq![],
    }
}

/// Checks that the weight attribute of an extrinsic names the extrinsic's own weight function.
pub struct WeightInfoValidator {
    pub function_name: String,
    pub collected_text: Vec<String>,
}

/// The attribute is not a weight attribute (fewer than four identifiers), or it has the form
/// `#[pallet::weight(... WeightInfo::<function_name>)]`.
pub open spec fn spec_is_valid_weight_info(function_name: Seq<char>, text: Seq<Seq<char>>) -> bool {
    text.len() < 4 || (
        text[0] == "pallet"@
        && text[1] == "weight"@
        && text[text.len() - 1] == function_name
        && text[text.len() - 2] == "WeightInfo"@
    )
}

impl WeightInfoValidator {
    /// The identifiers collected so far.
    pub open spec fn text(&self) -> Seq<Seq<char>> {
        self.collected_text@.map_values(|s: String| s@)
    }

    /// A validator for the extrinsic `function_name`, with nothing collected.
    pub fn new(function_name: String) -> (r: WeightInfoValidator)
        ensures
            r.function_name@ == function_name@,
            r.text() == Seq::<Seq<char>>::empty(),
    {
        let r = WeightInfoValidator { function_name, collected_text: Vec::new() };
        assert(r.text() =~= Seq::<Seq<char>>::empty());
        r
    }

    /// Collects the identifiers of the trees, in order, entering delimited groups.
    #[verifier::loop_isolation(false)]
    pub fn process_token_trees(&mut self, trees: &Vec<TokenTree>)
        ensures
            final(self).function_name == old(self).function_name,
            final(self).text() == old(self).text() + idents_of_seq(trees@),
        decreases trees,
    {
        let ghost t0 = self.text();
        let mut i: usize = 0;
        while i < trees.len()
            invariant
                i <= trees@.len(),
                self.function_name == old(self).function_name,
                self.text() == t0 + idents_of_seq(trees@.subrange(0, i as int)),
            decreases trees@.len() - i,
        {
            proof {
                lemma_idents_of_seq_push(trees@.subrange(0, i as int), trees@[i as int]);
                assert(trees@.subrange(0, i + 1) =~= trees@.subrange(0, i as int).push(trees@[i as int]));
            }
            match &trees[i] {
                TokenTree::Delimited(children) => {
                    proof {
                        assert(decreases_to!(*trees => trees@));
                        assert(decreases_to!(trees@ => trees@[i as int]));
                        assert(trees@[i as int] == TokenTree::Delimited(*children));
                        assert(decreases_to!(trees@[i as int] => *children));
                    }
                    self.process_token_trees(children);
                },
                TokenTree::Ident(s) => {
                    let ghost before = self.collected_text@;
                    self.collected_text.push(s.clone());
                    assert(self.collected_text@.map_values(|s: String| s@) =~= before.map_values(|s: String| s@).push(s@));
                },
                TokenTree::Other => {},
            }
            proof {
                assert(self.text() =~= t0 + idents_of_seq(trees@.subrange(0, i + 1)));
            }
            i = i + 1;
        }
        assert(trees@.subrange(0, trees@.len() as int) =~= trees@);
    }

    /// Whether the collected attribute is not a weight attribute, or is one that names this
    /// extrinsic's own weight function.
    pub fn is_valid_weight_info(&self) -> (r: bool)
        ensures
            r == spec_is_valid_weight_info(self.function_name@, self.text()),
    {
        proof {
            reveal_strlit("pallet");
            reveal_strlit("weight");
            reveal_strlit("WeightInfo");
        }
        let n = self.collected_text.len();
        if n < 4 {
            return true;
        }
        let is_pallet_attr = str_eq(self.collected_text[0].as_str(), "pallet");
        let is_weight_attr = str_eq(self.collected_text[1].as_str(), "weight");
        let is_function_attr = str_eq(self.collected_text[n - 1].as_str(), self.function_name.as_str());
        let is_weight_info = str_eq(self.collected_text[n - 2].as_str(), "WeightInfo");
        is_pallet_attr && is_weight_attr && is_function_attr && is_weight_info
    }
}

proof fn lemma_idents_of_seq_push(s: Seq<TokenTree>, t: TokenTree)
    ensures
        idents_of_seq(s.push(t)) == idents_of_seq(s) + idents_of(t),
    decreases s.len(),
{
    if s.len() == 0 {
        assert(s.push(t).subrange(1, 1) =~= Seq::<TokenTree>::empty());
        assert(idents_of_seq(Seq::<TokenTree>::empty()) == Seq::<Seq<char>>::empty());
        assert(idents_of_seq(s.push(t)) =~= idents_of(t));
    } else {
        let rest = s.subrange(1, s.len() as int);
        lemma_idents_of_seq_push(rest, t);
        assert(s.push(t).subrange(1, s.len() as int + 1) =~= rest.push(t));
        assert(s.push(t)[0] == s[0]);
        assert(idents_of_seq(s.push(t)) =~= idents_of(s[0]) + idents_of_seq(rest.push(t)));
    }
}

/// The extrinsics whose weight attribute names another function, with the spans of the
/// extrinsic and of the attribute. A later entry for a name replaces an earlier one.
pub struct GlobalState {
    pub functions_to_reconsider: Vec<(String, (u64, u64))>,
}

/// The table that a sequence of insertions builds, later ones replacing earlier ones.
pub open spec fn table_of(s: Seq<(String, (u64, u64))>) -> Map<Seq<char>, (u64, u64)>
    decreases s.len(),
{
    if s.len() == 0 {
        Map::empty()
    } else {
        table_of(s.drop_last()).insert(s.last().0@, s.last().1)
    }
}

impl GlobalState {
    /// The table of extrinsics to reconsider.
    pub open spec fn table(&self) -> Map<Seq<char>, (u64, u64)> {
        table_of(self.functions_to_reconsider@)
    }

    /// An empty table.
    pub fn new() -> (r: GlobalState)
        ensures
            r.table() == Map::<Seq<char>, (u64, u64)>::empty(),
    {
        GlobalState { functions_to_reconsider: Vec::new() }
    }

    /// Records an extrinsic to reconsider, with its span and its attribute's span.
    pub fn add_function_to_be_reconsidered(&mut self, function_name: String, span1: u64, span2: u64)
        ensures
            final(self).table() == old(self).table().insert(function_name@, (span1, span2)),
    {
        let ghost before = self.functions_to_reconsider@;
        self.functions_to_reconsider.push((function_name, (span1, span2)));
        assert(self.functions_to_reconsider@.drop_last() =~= before);
    }

    /// Whether any extrinsic is to be reconsidered.
    pub fn any_functions_to_reconsider(&self) -> (r: bool)
        ensures
            r == (self.table().dom() != Set::<Seq<char>>::empty()),
    {
        proof {
            let s = self.functions_to_reconsider@;
            if s.len() > 0 {
                assert(self.table().dom().contains(s.last().0@));
            } else {
                assert(self.table().dom() =~= Set::<Seq<char>>::empty());
            }
        }
        self.functions_to_reconsider.len() > 0
    }

    /// The spans recorded for extrinsic `s`, if it is to be reconsidered.
    #[verifier::loop_isolation(false)]
    pub fn functions_needs_reconsideration(&self, s: &str) -> (r: Option<(u64, u64)>)
        ensures
            r == if self.table().dom().contains(s@) { Some(self.table()[s@]) } else { None::<(u64, u64)> },
    {
        let v = &self.functions_to_reconsider;
        let mut i: usize = v.len();
        assert(v@.subrange(0, v@.len() as int) =~= v@);
        assert(v@.subrange(v@.len() as int, v@.len() as int) =~= Seq::<(String, (u64, u64))>::empty());
        assert(table_of(v@).union_prefer_right(Map::<Seq<char>, (u64, u64)>::empty()) =~= table_of(v@));
        while i > 0
            invariant
                i <= v@.len(),
                forall|k: int| i <= k < v@.len() ==> v@[k].0@ != s@,
                table_of(v@) == table_of(v@.subrange(0, i as int)).union_prefer_right(table_of(v@.subrange(i as int, v@.len() as int))),
                !table_of(v@.subrange(i as int, v@.len() as int)).dom().contains(s@),
            decreases i,
        {
            let ghost pre = v@.subrange(0, i as int);
            assert(pre.drop_last() =~= v@.subrange(0, i - 1));
            if str_eq(v[i - 1].0.as_str(), s) {
                assert(pre.last() == v@[i - 1]);
                assert(v@[i - 1].0@ == s@);
                assert(table_of(pre) == table_of(pre.drop_last()).insert(pre.last().0@, pre.last().1));
                assert(table_of(pre).dom().contains(s@));
                assert(table_of(pre)[s@] == v@[i - 1].1);
                assert(self.table().dom().contains(s@));
                assert(self.table()[s@] == v@[i - 1].1);
                return Some(v[i - 1].1);
            }
            proof {
                lemma_table_of_suffix(v@, (i - 1) as int, s@);
            }
            i = i - 1;
        }
        assert(v@.subrange(0, 0) =~= Seq::<(String, (u64, u64))>::empty());
        None
    }
}

proof fn lemma_table_of_suffix(v: Seq<(String, (u64, u64))>, i: int, key: Seq<char>)
    requires
        0 <= i < v.len(),
        v[i].0@ != key,
        table_of(v) == table_of(v.subrange(0, i + 1)).union_prefer_right(table_of(v.subrange(i + 1, v.len() as int))),
        !table_of(v.subrange(i + 1, v.len() as int)).dom().contains(key),
    ensures
        table_of(v) == table_of(v.subrange(0, i)).union_prefer_right(table_of(v.subrange(i, v.len() as int))),
        !table_of(v.subrange(i, v.len() as int)).dom().contains(key),
{
    lemma_table_of_concat(v.subrange(0, i), v.subrange(i, v.len() as int));
    assert(v.subrange(0, i) + v.subrange(i, v.len() as int) =~= v);
    lemma_table_of_concat(seq![v[i]], v.subrange(i + 1, v.len() as int));
    assert(seq![v[i]] + v.subrange(i + 1, v.len() as int) =~= v.subrange(i, v.len() as int));
    assert(seq![v[i]].drop_last() =~= Seq::<(String, (u64, u64))>::empty());
    assert(table_of(Seq::<(String, (u64, u64))>::empty()) == Map::<Seq<char>, (u64, u64)>::empty());
    assert(table_of(seq![v[i]]) == Map::<Seq<char>, (u64, u64)>::empty().insert(v[i].0@, v[i].1));
    assert(!table_of(seq![v[i]]).dom().contains(key));
}

proof fn lemma_table_of_concat(a: Seq<(String, (u64, u64))>, b: Seq<(String, (u64, u64))>)
    ensures
        table_of(a + b) == table_of(a).union_prefer_right(table_of(b)),
    decreases b.len(),
{
    if b.len() == 0 {
        assert(a + b =~= a);
        assert(table_of(b) =~= Map::<Seq<char>, (u64, u64)>::empty());
        assert(table_of(a).union_prefer_right(table_of(b)) =~= table_of(a));
    } else {
        lemma_table_of_concat(a, b.drop_last());
        assert((a + b).drop_last() =~= a + b.drop_last());
        assert(table_of(a + b) =~= table_of(a).union_prefer_right(table_of(b)));
    }
}

/// An expression of the generated `get_dispatch_info`, as far as the weight check reads it.
pub enum WExpr {
    /// A call; only the callee matters.
    Call { callee: Box<WExpr> },
    /// A block with its statements and its tail expression.
    Block { stmts: Vec<WStmt>, tail: Option<Box<WExpr>> },
    /// A type-relative path `<Type>::segment`.
    TypeRelativePath { segment: String },
    /// A resolved path, by the names of its segments.
    ResolvedPath { segments: Vec<String> },
    /// A dereference `*e`.
    Deref(Box<WExpr>),
    /// A `match`; `normal_source` says whether it was written as a `match`.
    Match { scrutinee: Box<WExpr>, arms: Vec<WArm>, normal_source: bool },
    /// Any other expression.
    Other,
}

/// A statement: a `let` with the name it binds (when the pattern is a binding) and its
/// initializer, or another statement.
pub enum WStmt {
    Let { binding: Option<String>, init: Option<WExpr> },
    Other,
}

/// A pattern: a struct pattern whose path is `Self::segment`, with whether it lists fields
/// or a rest `..`, or another pattern.
pub enum WPat {
    SelfStruct { segment: String, has_fields: bool, has_rest: bool },
    Other,
}

/// A match arm.
pub struct WArm {
    pub pat: WPat,
    pub body: WExpr,
}

/// The expression is `*self`.
pub open spec fn spec_is_star_self(e: WExpr) -> bool {
    match e {
        WExpr::Deref(inner) => match *inner {
            WExpr::ResolvedPath { segments } => segments@.len() == 1 && segments@[0]@ == "self"@,
            _ => false,
        },
        _ => false,
    }
}

/// Whether the expression has the form `*self`.
pub fn is_star_self(e: &WExpr) -> (r: bool)
    ensures
        r == spec_is_star_self(*e),
{
    proof {
        reveal_strlit("self");
    }
    if let WExpr::Deref(inner) = e {
        if let WExpr::ResolvedPath { segments } = &**inner {
            return segments.len() == 1 && str_eq(segments[0].as_str(), "self");
        }
    }
    false
}

/// The variant named by a pattern of the form `Self::variant {}`.
pub open spec fn spec_self_member(p: WPat) -> Option<Seq<char>> {
    match p {
        WPat::SelfStruct { segment, has_fields, has_rest } => if has_fields || has_rest { None } else { Some(segment@) },
        WPat::Other => None,
    }
}

/// The variant named by a pattern of the form `Self::variant {}`, if it has that form.
pub fn get_self_member(p: &WPat) -> (r: Option<String>)
    ensures
        match r {
            Some(s) => spec_self_member(*p) == Some(s@),
            None => spec_self_member(*p) is None,
        },
{
    match p {
        WPat::SelfStruct { segment, has_fields, has_rest } => {
            if *has_fields || *has_rest {
                None
            } else {
                Some(segment.clone())
            }
        },
        WPat::Other => None,
    }
}

/// Whether a call's callee is `<Type>::name`, when it is a type-relative path.
pub open spec fn spec_process_init_call(callee: WExpr, name: Seq<char>) -> Option<bool> {
    match callee {
        WExpr::TypeRelativePath { segment } => Some(segment@ == name),
        _ => None,
    }
}

/// Whether the weight initializer calls `<Type>::name`: a call, possibly inside blocks without
/// statements.
pub open spec fn spec_process_init(init: WExpr, name: Seq<char>) -> Option<bool>
    decreases init,
{
    match init {
        WExpr::Call { callee } => spec_process_init_call(*callee, name),
        WExpr::Block { stmts, tail } => if stmts@.len() != 0 {
            None
        } else {
            match tail {
                Some(t) => spec_process_init(*t, name),
                None => None,
            }
        },
        _ => None,
    }
}

/// Whether a call's callee is the weight function of the extrinsic `name`.
pub fn process_init_call(callee: &WExpr, name: &str) -> (r: Option<bool>)
    ensures
        r == spec_process_init_call(*callee, name@),
{
    match callee {
        WExpr::TypeRelativePath { segment } => Some(str_eq(segment.as_str(), name)),
        _ => None,
    }
}

/// Whether the weight initializer calls the weight function of the extrinsic `name`.
pub fn process_init(init: &WExpr, name: &str) -> (r: Option<bool>)
    ensures
        r == spec_process_init(*init, name@),
    decreases init,
{
    match init {
        WExpr::Call { callee } => process_init_call(&**callee, name),
        WExpr::Block { stmts, tail } => {
            if stmts.len() != 0 {
                return None;
            }
            match tail {
                Some(t) => process_init(&**t, name),
                None => None,
            }
        },
        _ => None,
    }
}

/// The initializer of `let __pallet_base_weight = ...`, if the statement is that binding.
pub open spec fn spec_base_weight_init(s: WStmt) -> Option<WExpr> {
    match s {
        WStmt::Let { binding: Some(b), init } => if b@ == "__pallet_base_weight"@ { init } else { None },
        _ => None,
    }
}

/// The first statement of a block that binds `__pallet_base_weight` to an initializer.
pub open spec fn spec_find_base_weight_in(stmts: Seq<WStmt>) -> Option<WExpr>
    decreases stmts.len(),
{
    if stmts.len() == 0 {
        None
    } else if spec_base_weight_init(stmts[0]) is Some {
        spec_base_weight_init(stmts[0])
    } else {
        spec_find_base_weight_in(stmts.subrange(1, stmts.len() as int))
    }
}

/// The initializer of `__pallet_base_weight` in a block body.
pub open spec fn spec_find_pallet_base_weight(e: WExpr) -> Option<WExpr> {
    match e {
        WExpr::Block { stmts, .. } => spec_find_base_weight_in(stmts@),
        _ => None,
    }
}

/// The initializer of a `let` that binds `__pallet_base_weight`.
pub fn get_pallet_base_weight_init(s: &WStmt) -> (r: Option<&WExpr>)
    ensures
        match r {
            Some(x) => spec_base_weight_init(*s) == Some(*x),
            None => spec_base_weight_init(*s) is None,
        },
{
    if let WStmt::Let { binding: Some(b), init } = s {
        if str_eq(b.as_str(), "__pallet_base_weight") {
            return match init {
                Some(x) => Some(x),
                None => None,
            };
        }
    }
    None
}

/// Finds the initializer of `__pallet_base_weight` in a block body.
#[verifier::loop_isolation(false)]
pub fn find_pallet_base_weight(e: &WExpr) -> (r: Option<&WExpr>)
    ensures
        match r {
            Some(x) => spec_find_pallet_base_weight(*e) == Some(*x),
            None => spec_find_pallet_base_weight(*e) is None,
        },
{
    proof {
        reveal_strlit("__pallet_base_weight");
    }
    if let WExpr::Block { stmts, .. } = e {
        let mut i: usize = 0;
        assert(stmts@.subrange(0, stmts@.len() as int) =~= stmts@);
        while i < stmts.len()
            invariant
                i <= stmts@.len(),
                spec_find_base_weight_in(stmts@) == spec_find_base_weight_in(stmts@.subrange(i as int, stmts@.len() as int)),
            decreases stmts@.len() - i,
        {
            let ghost rest = stmts@.subrange(i as int, stmts@.len() as int);
            assert(rest[0] == stmts@[i as int]);
            assert(rest.subrange(1, rest.len() as int) =~= stmts@.subrange(i + 1, stmts@.len() as int));
            if let Some(init) = get_pallet_base_weight_init(&stmts[i]) {
                return Some(init);
            }
            i = i + 1;
        }
        assert(stmts@.subrange(stmts@.len() as int, stmts@.len() as int).len() == 0);
        None
    } else {
        None
    }
}

/// The lint for one arm of the dispatch match, as the spans of the extrinsic and of its
/// attribute: the arm is `Self::f {}` for an extrinsic `f` recorded for reconsideration, its
/// body binds `__pallet_base_weight` to a call of a weight function, and that function is not
/// `f`'s own.
pub open spec fn spec_process_branch(arm: WArm, table: Map<Seq<char>, (u64, u64)>) -> Option<(u64, u64)> {
    match spec_self_member(arm.pat) {
        None => None,
        Some(f) => if !table.dom().contains(f) {
            None
        } else {
            match spec_find_pallet_base_weight(arm.body) {
                None => None,
                Some(init) => match spec_process_init(init, f) {
                    Some(false) => Some(table[f]),
                    _ => None,
                },
            }
        },
    }
}

/// Checks one arm of the dispatch match; returns the spans to report, if any.
pub fn process_branch(arm: &WArm, state: &GlobalState) -> (r: Option<(u64, u64)>)
    ensures
        r == spec_process_branch(*arm, state.table()),
{
    let function_name = match get_self_member(&arm.pat) {
        Some(f) => f,
        None => return None,
    };
    let spans = match state.functions_needs_reconsideration(function_name.as_str()) {
        Some(s) => s,
        None => return None,
    };
    let init = match find_pallet_base_weight(&arm.body) {
        Some(e) => e,
        None => return None,
    };
    match process_init(init, function_name.as_str()) {
        Some(false) => Some(spans),
        _ => None,
    }
}

/// The lints of `get_dispatch_info`: when its body ends in a `match *self`, those of its arms,
/// in order.
pub open spec fn spec_analyze_get_dispatch_info(body: WExpr, table: Map<Seq<char>, (u64, u64)>) -> Seq<(u64, u64)> {
    match body {
        WExpr::Block { tail: Some(t), .. } => match *t {
            WExpr::Match { scrutinee, arms, normal_source } => if normal_source && spec_is_star_self(*scrutinee) {
                arms@.filter(|a: WArm| spec_process_branch(a, table) is Some).map_values(|a: WArm| spec_process_branch(a, table)->0)
            } else {
                seq![]
            },
            _ => seq![],
        },
        _ => seq![],
    }
}

/// Checks every arm of the dispatch match of `get_dispatch_info`.
pub fn analyze_get_dispatch_info(body: &WExpr, state: &GlobalState) -> (r: Vec<(u64, u64)>)
    ensures
        r@ == spec_analyze_get_dispatch_info(*body, state.table()),
{
    let mut r: Vec<(u64, u64)> = Vec::new();
    if let WExpr::Block { tail: Some(t), .. } = body {
        if let WExpr::Match { scrutinee, arms, normal_source } = &**t {
            if *normal_source && is_star_self(&**scrutinee) {
                let ghost tb = state.table();
                let mut i: usize = 0;
                while i < arms.len()
                    invariant
                        i <= arms@.len(),
                        tb == state.table(),
                        r@ == arms@.subrange(0, i as int).filter(|a: WArm| spec_process_branch(a, tb) is Some).map_values(|a: WArm| spec_process_branch(a, tb)->0),
                    decreases arms@.len() - i,
                {
                    let ghost pre = arms@.subrange(0, i as int);
                    assert(arms@.subrange(0, i + 1) =~= pre.push(arms@[i as int]));
                    proof {
                        pre.lemma_filter_push(arms@[i as int], |a: WArm| spec_process_branch(a, tb) is Some);
                    }
                    match process_branch(&arms[i], state) {
                        Some(spans) => {
                            r.push(spans);
                        },
                        None => {},
                    }
                    proof {
                        let f = |a: WArm| spec_process_branch(a, tb) is Some;
                        let g = |a: WArm| spec_process_branch(a, tb)->0;
                        if f(arms@[i as int]) {
                            assert(pre.push(arms@[i as int]).filter(f) == pre.filter(f).push(arms@[i as int]));
                            assert(pre.filter(f).push(arms@[i as int]).map_values(g) =~= pre.filter(f).map_values(g).push(g(arms@[i as int])));
                        } else {
                            assert(pre.push(arms@[i as int]).filter(f) == pre.filter(f));
                        }
                    }
                    i = i + 1;
                }
                assert(arms@.subrange(0, arms@.len() as int) =~= arms@);
                return r;
            }
        }
    }
    r
}


/// Recording an extrinsic and then asking for it gives back the spans just recorded; asking
/// for any other extrinsic gives what it gave before.
pub proof fn law_reconsider_read_after_write(
    before: GlobalState,
    after: GlobalState,
    name: Seq<char>,
    spans: (u64, u64),
    other: Seq<char>,
)
    requires
        after.table() == before.table().insert(name, spans),
    ensures
        after.table().dom().contains(name),
        after.table()[name] == spans,
        other != name ==> after.table().dom().contains(other) == before.table().dom().contains(other),
        other != name && before.table().dom().contains(other) ==> after.table()[other] == before.table()[other],
{
}


/// An attribute of an associated function of an impl: whether it is a doc comment, its span,
/// and its tokens, when it has any.
pub struct WAttr {
    pub is_doc_comment: bool,
    pub span: u64,
    pub tokens: Option<Vec<TokenTree>>,
}

/// An associated function of an impl, with its name, span and attributes.
pub struct WImplFn {
    pub name: String,
    pub span: u64,
    pub attrs: Vec<WAttr>,
}

/// The effect of one attribute of `f` on the table: a token-carrying attribute that is not a
/// valid weight attribute for `f` records `f` with its span and the attribute's.
pub open spec fn attr_step(table: Map<Seq<char>, (u64, u64)>, f: WImplFn, a: WAttr) -> Map<Seq<char>, (u64, u64)> {
    match a.tokens {
        Some(ts) => if !a.is_doc_comment && !spec_is_valid_weight_info(f.name@, idents_of_seq(ts@)) {
            table.insert(f.name@, (f.span, a.span))
        } else {
            table
        },
        None => table,
    }
}

/// The effect of the attributes of `f`, in order.
pub open spec fn attrs_fold(table: Map<Seq<char>, (u64, u64)>, f: WImplFn, attrs: Seq<WAttr>) -> Map<Seq<char>, (u64, u64)>
    decreases attrs.len(),
{
    if attrs.len() == 0 {
        table
    } else {
        attr_step(attrs_fold(table, f, attrs.drop_last()), f, attrs.last())
    }
}

/// The effect of the associated functions of an impl, in order.
pub open spec fn fns_fold(table: Map<Seq<char>, (u64, u64)>, fns: Seq<WImplFn>) -> Map<Seq<char>, (u64, u64)>
    decreases fns.len(),
{
    if fns.len() == 0 {
        table
    } else {
        let f = fns.last();
        attrs_fold(fns_fold(table, fns.drop_last()), f, f.attrs@)
    }
}

/// The path of the function that dispatches the pallet's calls.
pub open spec fn dispatch_info_path() -> Seq<char> {
    "<pallet::Call<T> as frame_support::dispatch::GetDispatchInfo>::get_dispatch_info"@
}

/// The lint pass.
pub struct InconsistentExtrinsicWeightName;

impl InconsistentExtrinsicWeightName {
    /// Checks the associated functions of an impl: each one with a token-carrying attribute
    /// that is not a valid weight attribute for it is recorded for reconsideration.
    #[verifier::loop_isolation(false)]
    pub fn check_item(&self, state: &mut GlobalState, fns: &Vec<WImplFn>)
        ensures
            final(state).table() == fns_fold(old(state).table(), fns@),
    {
        let mut i: usize = 0;
        while i < fns.len()
            invariant
                i <= fns@.len(),
                state.table() == fns_fold(old(state).table(), fns@.take(i as int)),
            decreases fns@.len() - i,
        {
            assert(fns@.take(i + 1).drop_last() =~= fns@.take(i as int));
            let f = &fns[i];
            let ghost t0 = state.table();
            let mut j: usize = 0;
            while j < f.attrs.len()
                invariant
                    j <= f.attrs@.len(),
                    state.table() == attrs_fold(t0, *f, f.attrs@.take(j as int)),
                decreases f.attrs@.len() - j,
            {
                assert(f.attrs@.take(j + 1).drop_last() =~= f.attrs@.take(j as int));
                let a = &f.attrs[j];
                if !a.is_doc_comment {
                    if let Some(ts) = &a.tokens {
                        let mut validator = WeightInfoValidator::new(f.name.clone());
                        validator.process_token_trees(ts);
                        if !validator.is_valid_weight_info() {
                            state.add_function_to_be_reconsidered(validator.function_name, f.span, a.span);
                        }
                    }
                }
                j = j + 1;
            }
            assert(f.attrs@.take(f.attrs@.len() as int) =~= f.attrs@);
            i = i + 1;
        }
        assert(fns@.take(fns@.len() as int) =~= fns@);
    }

    /// Checks a function: when extrinsics are to be reconsidered and the function is the
    /// pallet's `get_dispatch_info`, the spans to report for the arms of its dispatch match.
    pub fn check_fn(&self, state: &GlobalState, def_path: &str, body: &WExpr) -> (r: Vec<(u64, u64)>)
        ensures
            r@ == if state.table().dom() != Set::<Seq<char>>::empty() && def_path@ == dispatch_info_path() {
                spec_analyze_get_dispatch_info(*body, state.table())
            } else {
                Seq::<(u64, u64)>::empty()
            },
    {
        if !state.any_functions_to_reconsider() {
            return Vec::new();
        }
        if !str_eq(def_path, "<pallet::Call<T> as frame_support::dispatch::GetDispatchInfo>::get_dispatch_info") {
            return Vec::new();
        }
        analyze_get_dispatch_info(body, state)
    }
}

} // verus!
