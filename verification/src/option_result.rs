use vstd::prelude::*;
use crate::text::{str_eq, str_contains, seq_contains};
use crate::seqs::{lemma_prefix_to_set_step, lemma_push_to_set};

verus! {

/// The kind of check a condition performs on an `Option` or `Result` local.
#[derive(Debug, Clone, Copy, PartialEq, Eq, Hash, Structural)]
pub enum CheckType {
    IsSome,
    IsNone,
    IsOk,
    IsErr,
}

/// The check named by a method, if the method is one of the four checks.
pub open spec fn check_type_of_method(name: Seq<char>) -> Option<CheckType> {
    if name == "is_some"@ {
        Some(CheckType::IsSome)
    } else if name == "is_none"@ {
        Some(CheckType::IsNone)
    } else if name == "is_ok"@ {
        Some(CheckType::IsOk)
    } else if name == "is_err"@ {
        Some(CheckType::IsErr)
    } else {
        None
    }
}

/// The check that holds exactly when the given one fails.
pub open spec fn inverse_of(c: CheckType) -> CheckType {
    match c {
        CheckType::IsSome => CheckType::IsNone,
        CheckType::IsNone => CheckType::IsSome,
        CheckType::IsOk => CheckType::IsErr,
        CheckType::IsErr => CheckType::IsOk,
    }
}

/// The check reports the absent case (`None` or `Err`).
pub open spec fn halts_execution(c: CheckType) -> bool {
    c == CheckType::IsNone || c == CheckType::IsErr
}

/// The check reports the present case (`Some` or `Ok`).
pub open spec fn is_safe_check(c: CheckType) -> bool {
    c == CheckType::IsSome || c == CheckType::IsOk
}

impl CheckType {
    /// The check performed by a method named `name`.
    pub fn from_method_name(name: &str) -> (r: Option<CheckType>)
        ensures
            r == check_type_of_method(name@),
    {
        proof {
            reveal_strlit("is_some");
            reveal_strlit("is_none");
            reveal_strlit("is_ok");
            reveal_strlit("is_err");
        }
        if str_eq(name, "is_some") {
            Some(CheckType::IsSome)
        } else if str_eq(name, "is_none") {
            Some(CheckType::IsNone)
        } else if str_eq(name, "is_ok") {
            Some(CheckType::IsOk)
        } else if str_eq(name, "is_err") {
            Some(CheckType::IsErr)
        } else {
            None
        }
    }

    /// The opposite check.
    pub fn inverse(self) -> (r: CheckType)
        ensures
            r == inverse_of(self),
    {
        match self {
            CheckType::IsSome => CheckType::IsNone,
            CheckType::IsNone => CheckType::IsSome,
            CheckType::IsOk => CheckType::IsErr,
            CheckType::IsErr => CheckType::IsOk,
        }
    }

    /// Whether the check reports the absent case, after which execution should stop.
    pub fn should_halt_execution(self) -> (r: bool)
        ensures
            r == halts_execution(self),
    {
        matches!(self, CheckType::IsNone | CheckType::IsErr)
    }

    /// Whether the check reports the present case, after which unwrapping is safe.
    pub fn is_safe(self) -> (r: bool)
        ensures
            r == is_safe_check(self),
    {
        matches!(self, CheckType::IsSome | CheckType::IsOk)
    }
}

/// The kind of value being unwrapped.
#[derive(Debug, Clone, Copy, PartialEq, Eq, Structural)]
pub enum UnwrapType {
    Option,
    Result,
}

/// A check on a local variable, taken from the condition of an `if` or `if let`.
#[derive(Debug, Clone, Copy, PartialEq, Eq, Hash, Structural)]
pub struct ConditionalChecker {
    pub check_type: CheckType,
    pub checked_expr_hir_id: u64,
}

/// The shape of a condition, as far as the checker reads it.
pub enum Condition {
    /// A method call; `receiver_local` is the local the receiver names, when it is a path to one.
    MethodCall { method: String, receiver_local: Option<u64> },
    /// A unary operator applied to a condition.
    Unary { is_not: bool, operand: Box<Condition> },
    /// `left || right`.
    Or(Box<Condition>, Box<Condition>),
    /// Any other expression.
    Other,
}

/// The checks found directly in a condition that is a method call, inverted when asked.
pub open spec fn spec_handle_condition(c: Condition, inverse: bool) -> Set<ConditionalChecker> {
    match c {
        Condition::MethodCall { method, receiver_local } => {
            match (check_type_of_method(method@), receiver_local) {
                (Some(t), Some(id)) => set![ConditionalChecker {
                    check_type: if inverse { inverse_of(t) } else { t },
                    checked_expr_hir_id: id,
                }],
                _ => Set::empty(),
            }
        },
        _ => Set::empty(),
    }
}

/// The checks a condition establishes: a single check, a negated one, or those of any
/// operand of a chain of `||`.
pub open spec fn spec_from_expression(c: Condition) -> Set<ConditionalChecker>
    decreases c,
{
    match c {
        Condition::Unary { is_not, operand } => spec_handle_condition(*operand, is_not),
        Condition::Or(l, r) => spec_from_expression(*l).union(spec_from_expression(*r)),
        Condition::MethodCall { .. } => spec_handle_condition(c, false),
        Condition::Other => Set::empty(),
    }
}

/// Adds `x` to `v` unless it is there already.
fn push_unique(v: &mut Vec<ConditionalChecker>, x: ConditionalChecker)
    ensures
        final(v)@.to_set() == old(v)@.to_set().insert(x),
{
    let mut i: usize = 0;
    while i < v.len()
        invariant
            i <= v@.len(),
            forall|k: int| 0 <= k < i ==> v@[k] != x,
        decreases v@.len() - i,
    {
        if v[i] == x {
            assert(v@.to_set().insert(x) =~= v@.to_set());
            return;
        }
        i = i + 1;
    }
    let ghost before = v@;
    v.push(x);
    proof {
        lemma_push_to_set(before, x);
    }
}

impl ConditionalChecker {
    /// The check made by a condition that is a method call, inverted when `inverse` holds.
    pub fn handle_condition(condition: &Condition, inverse: bool) -> (r: Vec<ConditionalChecker>)
        ensures
            r@.to_set() == spec_handle_condition(*condition, inverse),
    {
        let mut r: Vec<ConditionalChecker> = Vec::new();
        if let Condition::MethodCall { method, receiver_local } = condition {
            if let Some(check_type) = CheckType::from_method_name(method.as_str()) {
                if let Some(id) = receiver_local {
                    let check_type = if inverse { check_type.inverse() } else { check_type };
                    r.push(ConditionalChecker { check_type, checked_expr_hir_id: *id });
                    proof {
                        lemma_push_to_set(Seq::<ConditionalChecker>::empty(), r@[0]);
                        assert(r@ =~= Seq::<ConditionalChecker>::empty().push(r@[0]));
                        assert(Seq::<ConditionalChecker>::empty().to_set() =~= Set::empty());
                    }
                    return r;
                }
            }
        }
        assert(r@.to_set() =~= Set::empty());
        r
    }

    /// The checks that a condition establishes.
    pub fn from_expression(condition: &Condition) -> (r: Vec<ConditionalChecker>)
        ensures
            r@.to_set() == spec_from_expression(*condition),
        decreases condition,
    {
        match condition {
            Condition::Unary { is_not, operand } => Self::handle_condition(&**operand, *is_not),
            Condition::Or(left, right) => {
                let mut result = Self::from_expression(&**left);
                let more = Self::from_expression(&**right);
                let mut i: usize = 0;
                while i < more.len()
                    invariant
                        i <= more@.len(),
                        result@.to_set() == spec_from_expression(**left).union(
                            more@.subrange(0, i as int).to_set(),
                        ),
                    decreases more@.len() - i,
                {
                    let ghost before = result@.to_set();
                    push_unique(&mut result, more[i]);
                    proof {
                        lemma_prefix_to_set_step(more@, i as int);
                    }
                    i = i + 1;
                }
                assert(more@.subrange(0, more@.len() as int) =~= more@);
                result
            },
            Condition::MethodCall { .. } => Self::handle_condition(condition, false),
            Condition::Other => {
                let r: Vec<ConditionalChecker> = Vec::new();
                assert(r@.to_set() =~= Set::empty());
                r
            },
        }
    }
}

/// The callee of a call, as far as the checker reads it.
pub enum Callee {
    /// A resolved path, given by the names of its segments.
    ResolvedPath(Vec<String>),
    /// Any other callee expression.
    Other,
}

/// The shape of a `match` expression, as far as the checker reads it.
pub enum MatchShape {
    /// A match desugared from `?` whose scrutinee calls the `Try::branch` lang item;
    /// `branch_arg_local` is the local that the first argument names, when it is a path to one.
    TryDesugar { branch_arg_local: Option<u64> },
    /// Any other match.
    Other,
}

/// Tracks which `Option` / `Result` locals have been checked before an unwrap.
pub struct OptionResultChecker {
    pub conditional_checker: Vec<ConditionalChecker>,
    pub checked_exprs: Vec<u64>,
}

/// Some path segment contains one of the panicking function names.
pub open spec fn spec_is_panic_inducing(segments: Seq<Seq<char>>) -> bool {
    exists|i: int| 0 <= i < segments.len() && (seq_contains(segments[i], "panic"@) || seq_contains(segments[i], "bail"@))
}

/// The help text shown for an unchecked unwrap of the given kind.
pub open spec fn help_message_of(t: UnwrapType) -> Seq<char> {
    match t {
        UnwrapType::Option => "Consider pattern matching or using `if let` instead of `unwrap`"@,
        UnwrapType::Result => "Consider handling the error case explicitly or using `if let` instead of `unwrap`"@,
    }
}

/// Adds `x` to `v` unless it is there already.
fn push_unique_id(v: &mut Vec<u64>, x: u64)
    ensures
        final(v)@.to_set() == old(v)@.to_set().insert(x),
{
    let mut i: usize = 0;
    while i < v.len()
        invariant
            i <= v@.len(),
        decreases v@.len() - i,
    {
        if v[i] == x {
            assert(v@.to_set().insert(x) =~= v@.to_set());
            return;
        }
        i = i + 1;
    }
    let ghost before = v@;
    v.push(x);
    proof {
        lemma_push_to_set(before, x);
    }
}

/// Removes every occurrence of `x` from `v`.
fn remove_all_id(v: &mut Vec<u64>, x: u64)
    ensures
        final(v)@.to_set() == old(v)@.to_set().remove(x),
{
    let mut out: Vec<u64> = Vec::new();
    let mut i: usize = 0;
    while i < v.len()
        invariant
            i <= v@.len(),
            out@.to_set() == v@.subrange(0, i as int).to_set().remove(x),
        decreases v@.len() - i,
    {
        proof {
            lemma_prefix_to_set_step(v@, i as int);
        }
        if v[i] != x {
            let ghost before = out@;
            out.push(v[i]);
            proof {
                lemma_push_to_set(before, v@[i as int]);
            }
        }
        i = i + 1;
    }
    assert(v@.subrange(0, v@.len() as int) =~= v@);
    *v = out;
}

/// Removes every occurrence of `x` from `v`.
fn remove_all_checker(v: &mut Vec<ConditionalChecker>, x: ConditionalChecker)
    ensures
        final(v)@.to_set() == old(v)@.to_set().remove(x),
{
    let mut out: Vec<ConditionalChecker> = Vec::new();
    let mut i: usize = 0;
    while i < v.len()
        invariant
            i <= v@.len(),
            out@.to_set() == v@.subrange(0, i as int).to_set().remove(x),
        decreases v@.len() - i,
    {
        proof {
            lemma_prefix_to_set_step(v@, i as int);
        }
        if v[i] != x {
            let ghost before = out@;
            out.push(v[i]);
            proof {
                lemma_push_to_set(before, v@[i as int]);
            }
        }
        i = i + 1;
    }
    assert(v@.subrange(0, v@.len() as int) =~= v@);
    *v = out;
}

/// The kind of check a set of locals is taken from.
pub open spec fn check_selected(t: CheckType, halting: bool) -> bool {
    if halting { halts_execution(t) } else { is_safe_check(t) }
}

/// The locals of the checks in `cs` that report the absent case (`halting`) or the present
/// case (`!halting`).
pub open spec fn checked_ids(cs: Set<ConditionalChecker>, halting: bool) -> Set<u64> {
    Set::new(|id: u64| exists|c: ConditionalChecker| #[trigger] cs.contains(c) && check_selected(c.check_type, halting) && c.checked_expr_hir_id == id)
}

proof fn lemma_checked_ids_insert(cs: Set<ConditionalChecker>, x: ConditionalChecker, halting: bool)
    ensures
        checked_ids(cs.insert(x), halting) == if check_selected(x.check_type, halting) {
            checked_ids(cs, halting).insert(x.checked_expr_hir_id)
        } else {
            checked_ids(cs, halting)
        },
{
    let lhs = checked_ids(cs.insert(x), halting);
    let rhs = if check_selected(x.check_type, halting) {
        checked_ids(cs, halting).insert(x.checked_expr_hir_id)
    } else {
        checked_ids(cs, halting)
    };
    assert forall|id: u64| lhs.contains(id) <==> rhs.contains(id) by {
        if lhs.contains(id) {
            let c = choose|c: ConditionalChecker| #[trigger] cs.insert(x).contains(c) && check_selected(c.check_type, halting) && c.checked_expr_hir_id == id;
            if c != x {
                assert(cs.contains(c));
            }
        }
        if checked_ids(cs, halting).contains(id) {
            let c = choose|c: ConditionalChecker| #[trigger] cs.contains(c) && check_selected(c.check_type, halting) && c.checked_expr_hir_id == id;
            assert(cs.insert(x).contains(c));
        }
        if check_selected(x.check_type, halting) && id == x.checked_expr_hir_id {
            assert(cs.insert(x).contains(x));
        }
    }
    assert(lhs =~= rhs);
}

impl OptionResultChecker {
    /// The checks in force.
    pub open spec fn checks(&self) -> Set<ConditionalChecker> {
        self.conditional_checker@.to_set()
    }

    /// The locals known to be checked.
    pub open spec fn checked(&self) -> Set<u64> {
        self.checked_exprs@.to_set()
    }

    /// A checker with no checks and no checked locals.
    pub fn new() -> (r: OptionResultChecker)
        ensures
            r.checks() == Set::<ConditionalChecker>::empty(),
            r.checked() == Set::<u64>::empty(),
    {
        let r = OptionResultChecker { conditional_checker: Vec::new(), checked_exprs: Vec::new() };
        assert(r.checks() =~= Set::<ConditionalChecker>::empty());
        assert(r.checked() =~= Set::<u64>::empty());
        r
    }

    /// An unwrap on a receiver is unsafe unless the receiver is a constant or a checked local.
    /// `receiver_is_constant` says whether the receiver evaluates to a constant; `receiver_local`
    /// is the local it names, when it is a path to one.
    #[verifier::loop_isolation(false)]
    pub fn is_method_call_unsafe(&self, receiver_is_constant: bool, receiver_local: Option<u64>) -> (r: bool)
        ensures
            r == (!receiver_is_constant && match receiver_local {
                Some(id) => !self.checked().contains(id),
                None => true,
            }),
    {
        if receiver_is_constant {
            return false;
        }
        match Self::get_check_info(receiver_local) {
            Some(id) => {
                let mut i: usize = 0;
                while i < self.checked_exprs.len()
                    invariant
                        i <= self.checked_exprs@.len(),
                        forall|k: int| 0 <= k < i ==> self.checked_exprs@[k] != id,
                    decreases self.checked_exprs@.len() - i,
                {
                    if self.checked_exprs[i] == id {
                        assert(self.checked_exprs@[i as int] == id);
                        assert(self.checked_exprs@.contains(id));
                        assert(self.checked().contains(id));
                        return false;
                    }
                    i = i + 1;
                }
                assert(!self.checked_exprs@.contains(id));
                assert(!self.checked().contains(id));
                true
            },
            None => true,
        }
    }

    /// The local whose check is relevant for a receiver: the local it names, if any.
    pub fn get_check_info(receiver_local: Option<u64>) -> (r: Option<u64>)
        ensures
            r == receiver_local,
    {
        receiver_local
    }

    /// The kind of value unwrapped: `Result` when the receiver's type is `Result`, else `Option`.
    pub fn determine_unwrap_type(&self, receiver_type_is_result: bool) -> (r: UnwrapType)
        ensures
            r == (if receiver_type_is_result { UnwrapType::Result } else { UnwrapType::Option }),
    {
        if receiver_type_is_result {
            UnwrapType::Result
        } else {
            UnwrapType::Option
        }
    }

    /// The help text for an unchecked unwrap of the given kind.
    pub fn get_help_message(&self, unwrap_type: UnwrapType) -> (r: &'static str)
        ensures
            r@ == help_message_of(unwrap_type),
    {
        match unwrap_type {
            UnwrapType::Option => "Consider pattern matching or using `if let` instead of `unwrap`",
            UnwrapType::Result => "Consider handling the error case explicitly or using `if let` instead of `unwrap`",
        }
    }

    /// Enters (`set`) or leaves (`!set`) the scope of the given checks: the checks are added
    /// or removed, and so are the locals of the checks that make unwrapping safe.
    pub fn update_conditional_checker(&mut self, conditional_checkers: &Vec<ConditionalChecker>, set: bool)
        ensures
            set ==> final(self).checks() == old(self).checks().union(conditional_checkers@.to_set()),
            set ==> final(self).checked() == old(self).checked().union(
                checked_ids(conditional_checkers@.to_set(), false)),
            !set ==> final(self).checks() == old(self).checks().difference(conditional_checkers@.to_set()),
            !set ==> final(self).checked() == old(self).checked().difference(
                checked_ids(conditional_checkers@.to_set(), false)),
    {
        let ghost cc0 = self.checks();
        let ghost ce0 = self.checked();
        let mut i: usize = 0;
        while i < conditional_checkers.len()
            invariant
                i <= conditional_checkers@.len(),
                set ==> self.checks() == cc0.union(conditional_checkers@.subrange(0, i as int).to_set()),
                set ==> self.checked() == ce0.union(
                    checked_ids(conditional_checkers@.subrange(0, i as int).to_set(), false)),
                !set ==> self.checks() == cc0.difference(conditional_checkers@.subrange(0, i as int).to_set()),
                !set ==> self.checked() == ce0.difference(
                    checked_ids(conditional_checkers@.subrange(0, i as int).to_set(), false)),
            decreases conditional_checkers@.len() - i,
        {
            let checker = conditional_checkers[i];
            let ghost pre = conditional_checkers@.subrange(0, i as int).to_set();
            let ghost post = conditional_checkers@.subrange(0, i + 1).to_set();
            proof {
                lemma_prefix_to_set_step(conditional_checkers@, i as int);
            }
            let ghost ids_pre = checked_ids(pre, false);
            let ghost ids_post = checked_ids(post, false);
            proof {
                lemma_checked_ids_insert(pre, checker, false);
            }
            if set {
                push_unique(&mut self.conditional_checker, checker);
                if checker.check_type.is_safe() {
                    push_unique_id(&mut self.checked_exprs, checker.checked_expr_hir_id);
                    assert(ids_post =~= ids_pre.insert(checker.checked_expr_hir_id));
                } else {
                    assert(ids_post =~= ids_pre);
                }
                assert(self.checks() =~= cc0.union(post));
                assert(self.checked() =~= ce0.union(ids_post));
            } else {
                if checker.check_type.is_safe() {
                    remove_all_id(&mut self.checked_exprs, checker.checked_expr_hir_id);
                    assert(ids_post =~= ids_pre.insert(checker.checked_expr_hir_id));
                } else {
                    assert(ids_post =~= ids_pre);
                }
                remove_all_checker(&mut self.conditional_checker, checker);
                assert(self.checks() =~= cc0.difference(post));
                assert(self.checked() =~= ce0.difference(ids_post));
            }
            i = i + 1;
        }
        assert(conditional_checkers@.subrange(0, conditional_checkers@.len() as int) =~= conditional_checkers@);
    }

    /// Inside the body of an `if`, the locals of checks that report the absent case count as
    /// checked (the body is expected to return or panic).
    pub fn handle_if_expressions(&mut self)
        ensures
            final(self).checks() == old(self).checks(),
            final(self).checked() == old(self).checked().union(
                checked_ids(old(self).checks(), true)),
    {
        let ghost ce0 = self.checked();
        let mut i: usize = 0;
        while i < self.conditional_checker.len()
            invariant
                i <= self.conditional_checker@.len(),
                self.conditional_checker@ == old(self).conditional_checker@,
                self.checked() == ce0.union(checked_ids(
                    self.conditional_checker@.subrange(0, i as int).to_set(), true)),
            decreases self.conditional_checker@.len() - i,
        {
            let checker = self.conditional_checker[i];
            let ghost pre = self.conditional_checker@.subrange(0, i as int).to_set();
            let ghost post = self.conditional_checker@.subrange(0, i + 1).to_set();
            proof {
                lemma_prefix_to_set_step(self.conditional_checker@, i as int);
            }
            let ghost ids_pre = checked_ids(pre, true);
            let ghost ids_post = checked_ids(post, true);
            proof {
                lemma_checked_ids_insert(pre, checker, true);
            }
            if checker.check_type.should_halt_execution() {
                push_unique_id(&mut self.checked_exprs, checker.checked_expr_hir_id);
                assert(ids_post =~= ids_pre.insert(checker.checked_expr_hir_id));
            } else {
                assert(ids_post =~= ids_pre);
            }
            assert(self.checked() =~= ce0.union(ids_post));
            i = i + 1;
        }
        assert(self.conditional_checker@.subrange(0, self.conditional_checker@.len() as int) =~= self.conditional_checker@);
    }

    /// A call panics when its callee is a resolved path one of whose segments contains
    /// `panic` or `bail`.
    #[verifier::loop_isolation(false)]
    pub fn is_panic_inducing_call(&self, func: &Callee) -> (r: bool)
        ensures
            r == match func {
                Callee::ResolvedPath(segs) => spec_is_panic_inducing(segs@.map_values(|s: String| s@)),
                Callee::Other => false,
            },
    {
        proof {
            reveal_strlit("panic");
            reveal_strlit("bail");
        }
        match func {
            Callee::ResolvedPath(segments) => {
                let ghost names = segments@.map_values(|s: String| s@);
                let mut i: usize = 0;
                while i < segments.len()
                    invariant
                        i <= segments@.len(),
                        names == segments@.map_values(|s: String| s@),
                        forall|k: int| 0 <= k < i ==> !(seq_contains(names[k], "panic"@) || seq_contains(names[k], "bail"@)),
                    decreases segments@.len() - i,
                {
                    if str_contains(segments[i].as_str(), "panic") || str_contains(segments[i].as_str(), "bail") {
                        assert(names[i as int] == segments@[i as int]@);
                        assert(seq_contains(names[i as int], "panic"@) || seq_contains(names[i as int], "bail"@));
                        assert(spec_is_panic_inducing(names));
                        return true;
                    }
                    i = i + 1;
                }
                false
            },
            Callee::Other => false,
        }
    }

    /// A `?` applied to a local marks that local as checked.
    pub fn check_for_try(&mut self, expr: &MatchShape)
        ensures
            final(self).checks() == old(self).checks(),
            final(self).checked() == match expr {
                MatchShape::TryDesugar { branch_arg_local: Some(id) } => old(self).checked().insert(*id),
                _ => old(self).checked(),
            },
    {
        if let MatchShape::TryDesugar { branch_arg_local: Some(id) } = expr {
            push_unique_id(&mut self.checked_exprs, *id);
        }
    }
}


/// Inside `if x.is_some()` or `if x.is_ok()`, and inside `if !x.is_none()` or
/// `if !x.is_err()`, unwrapping `x` is safe: entering the scope of the condition's checks
/// makes `x` a checked local.
pub proof fn law_checked_condition_makes_local_safe(checked: Set<u64>, method: String, id: u64, negated: bool)
    requires
        (!negated && (check_type_of_method(method@) == Some(CheckType::IsSome) || check_type_of_method(method@) == Some(CheckType::IsOk)))
        || (negated && (check_type_of_method(method@) == Some(CheckType::IsNone) || check_type_of_method(method@) == Some(CheckType::IsErr))),
    ensures
        ({
            let call = Condition::MethodCall { method, receiver_local: Some(id) };
            let cond = if negated { Condition::Unary { is_not: true, operand: Box::new(call) } } else { call };
            checked.union(checked_ids(spec_from_expression(cond), false)).contains(id)
        }),
{
    let call = Condition::MethodCall { method, receiver_local: Some(id) };
    let cond = if negated { Condition::Unary { is_not: true, operand: Box::new(call) } } else { call };
    let t = check_type_of_method(method@)->0;
    let c = ConditionalChecker { check_type: if negated { inverse_of(t) } else { t }, checked_expr_hir_id: id };
    assert(spec_from_expression(cond).contains(c));
    assert(checked_ids(spec_from_expression(cond), false).contains(id));
}

/// Inside `if x.is_none()` or `if x.is_err()`, whose body is expected to return or panic,
/// `x` counts as checked once the body is entered.
pub proof fn law_halting_check_marks_local(checked: Set<u64>, checks: Set<ConditionalChecker>, method: String, id: u64)
    requires
        check_type_of_method(method@) == Some(CheckType::IsNone) || check_type_of_method(method@) == Some(CheckType::IsErr),
    ensures
        ({
            let cs = checks.union(spec_from_expression(Condition::MethodCall { method, receiver_local: Some(id) }));
            checked.union(checked_ids(cs, true)).contains(id)
        }),
{
    let t = check_type_of_method(method@)->0;
    let c = ConditionalChecker { check_type: t, checked_expr_hir_id: id };
    let cs = checks.union(spec_from_expression(Condition::MethodCall { method, receiver_local: Some(id) }));
    assert(cs.contains(c));
    assert(checked_ids(cs, true).contains(id));
}

} // verus!
