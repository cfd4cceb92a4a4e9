use vstd::prelude::*;
use std::collections::{HashMap, HashSet};

verus! {

broadcast use vstd::std_specs::hash::group_hash_axioms;

/// A value that a constant analysis can give an expression.
#[derive(Debug, Clone, Copy, PartialEq, Eq, Structural)]
pub enum ConstVal {
    Int(u128),
    Other,
}

/// What the arithmetic checks read of an operand expression: its constant value, when it has
/// one, and the identifier it stands for (a local it names, or the literal itself), when it
/// has one.
#[derive(Debug, Clone, Copy, PartialEq, Eq, Structural)]
pub struct ExprInfo {
    pub constant: Option<ConstVal>,
    pub hir_id: Option<u64>,
}

/// The integer value of a constant, if it is an integer.
pub open spec fn const_int(c: Option<ConstVal>) -> Option<u128> {
    match c {
        Some(ConstVal::Int(v)) => Some(v),
        _ => None,
    }
}

/// A bound known for a minuend: a variable or a constant that it is at least.
#[derive(Debug, Clone, Copy, PartialEq, Eq, Hash, Structural)]
pub enum SafetyValue {
    Variable(u64),
    Constant(i128),
}

/// A table from minuends to their known lower bounds.
pub type BoundTable = HashMap<u64, Vec<SafetyValue>>;

/// The bounds recorded in a table.
pub open spec fn bounds_of(m: Map<u64, Vec<SafetyValue>>) -> Map<u64, Set<SafetyValue>> {
    Map::new(|k: u64| m.dom().contains(k), |k: u64| m[k]@.to_set())
}

/// The table with `v` added to the bounds of `k`.
pub open spec fn with_bound(m: Map<u64, Set<SafetyValue>>, k: u64, v: SafetyValue) -> Map<u64, Set<SafetyValue>> {
    m.insert(k, if m.dom().contains(k) { m[k].insert(v) } else { set![v] })
}

/// `k` has the bound `v` in the table.
pub open spec fn has_bound(m: Map<u64, Set<SafetyValue>>, k: u64, v: SafetyValue) -> bool {
    m.dom().contains(k) && m[k].contains(v)
}

fn push_unique_value(v: &mut Vec<SafetyValue>, x: SafetyValue)
    ensures
        final(v)@.to_set() == old(v)@.to_set().insert(x),
{
    let mut i: usize = 0;
    while i < v.len()
        invariant
            i <= v@.len(),
        decreases v@.len() - i,
    {
        if v[i] == x {
            assert(v@.to_set().insert(x) =~= v@.to_set());
            return;
        }
        i = i + 1;
    }
    let ghost before = v@;
    v.push(x);
    proof {
        crate::seqs::lemma_push_to_set(before, x);
    }
}

fn vec_has_value(v: &Vec<SafetyValue>, x: SafetyValue) -> (r: bool)
    ensures
        r == v@.to_set().contains(x),
{
    let mut i: usize = 0;
    while i < v.len()
        invariant
            i <= v@.len(),
            forall|k: int| 0 <= k < i ==> v@[k] != x,
        decreases v@.len() - i,
    {
        if v[i] == x {
            assert(v@[i as int] == x);
            return true;
        }
        i = i + 1;
    }
    false
}

/// Adds the bound `v` to `k`.
fn record_bound(m: &mut BoundTable, k: u64, v: SafetyValue)
    ensures
        bounds_of(final(m)@) == with_bound(bounds_of(old(m)@), k, v),
{
    let ghost old_m = m@;
    match m.remove(&k) {
        Some(mut vals) => {
            push_unique_value(&mut vals, v);
            m.insert(k, vals);
        },
        None => {
            let vals = vec![v];
            assert(vals@ =~= Seq::<SafetyValue>::empty().push(v));
            proof {
                crate::seqs::lemma_push_to_set(Seq::<SafetyValue>::empty(), v);
                assert(Seq::<SafetyValue>::empty().to_set() =~= Set::<SafetyValue>::empty());
            }
            m.insert(k, vals);
        },
    }
    assert(bounds_of(m@) =~= with_bound(bounds_of(old_m), k, v));
}

/// Whether `k` has the bound `v` in the table.
fn lookup_bound(m: &BoundTable, k: u64, v: SafetyValue) -> (r: bool)
    ensures
        r == has_bound(bounds_of(m@), k, v),
{
    match m.get(&k) {
        Some(vals) => vec_has_value(vals, v),
        None => false,
    }
}

/// Tracks which subtractions cannot underflow: bounds learned from `min`, `max` and `clamp`
/// bindings for the whole function, and bounds learned from comparisons inside the branch
/// being visited.
pub struct SubtractionContext {
    pub safe_subtractions: BoundTable,
    pub current_scope: Option<BoundTable>,
}

/// The shape of a `let` initializer, as far as the subtraction checks read it.
pub enum InitShape {
    MethodCall { method: String, receiver: ExprInfo, args: Vec<ExprInfo> },
    Other,
}

/// The bounds of a scope, if one is open.
pub open spec fn scope_bounds(s: Option<BoundTable>) -> Option<Map<u64, Set<SafetyValue>>> {
    match s {
        Some(t) => Some(bounds_of(t@)),
        None => None,
    }
}

/// The effect of a comparison `less_eq <= greater_eq` on the scope's bounds.
pub open spec fn spec_track_comparison(scope: Option<Map<u64, Set<SafetyValue>>>, less_eq: ExprInfo, greater_eq: ExprInfo) -> Option<Map<u64, Set<SafetyValue>>> {
    match scope {
        None => None,
        Some(sc) => Some(
            if less_eq.constant is Some {
                if greater_eq.hir_id is Some && const_int(less_eq.constant) is Some {
                    with_bound(sc, greater_eq.hir_id->0, SafetyValue::Constant(const_int(less_eq.constant)->0 as i128))
                } else {
                    sc
                }
            } else if greater_eq.constant is Some {
                if less_eq.hir_id is Some && const_int(greater_eq.constant) is Some {
                    with_bound(sc, less_eq.hir_id->0, SafetyValue::Constant(const_int(greater_eq.constant)->0 as i128))
                } else {
                    sc
                }
            } else if less_eq.hir_id is Some && greater_eq.hir_id is Some {
                with_bound(sc, greater_eq.hir_id->0, SafetyValue::Variable(less_eq.hir_id->0))
            } else {
                sc
            },
        ),
    }
}

/// Records a bound: in the open scope when there is one, else for the whole function.
pub open spec fn spec_record(safe: Map<u64, Set<SafetyValue>>, scope: Option<Map<u64, Set<SafetyValue>>>, k: u64, v: SafetyValue)
    -> (Map<u64, Set<SafetyValue>>, Option<Map<u64, Set<SafetyValue>>>) {
    match scope {
        Some(sc) => (safe, Some(with_bound(sc, k, v))),
        None => (with_bound(safe, k, v), None),
    }
}

/// Records a bound of `k` when the operand stands for an identifier.
pub open spec fn spec_record_opt(st: (Map<u64, Set<SafetyValue>>, Option<Map<u64, Set<SafetyValue>>>), k: Option<u64>, v: SafetyValue)
    -> (Map<u64, Set<SafetyValue>>, Option<Map<u64, Set<SafetyValue>>>) {
    match k {
        Some(id) => spec_record(st.0, st.1, id, v),
        None => st,
    }
}

/// What a `let pat = receiver.method(args..)` binding teaches: `min` bounds both operands by
/// the result, `max` bounds the result by both operands, `clamp` bounds the result by its
/// lower limit and its upper limit by the result.
pub open spec fn spec_check_method_binding(
    safe: Map<u64, Set<SafetyValue>>,
    scope: Option<Map<u64, Set<SafetyValue>>>,
    method: Seq<char>,
    receiver: ExprInfo,
    args: Seq<ExprInfo>,
    pat_hir_id: u64,
) -> (Map<u64, Set<SafetyValue>>, Option<Map<u64, Set<SafetyValue>>>) {
    let st0 = (safe, scope);
    if method == "min"@ {
        spec_record_opt(spec_record_opt(st0, receiver.hir_id, SafetyValue::Variable(pat_hir_id)), args[0].hir_id, SafetyValue::Variable(pat_hir_id))
    } else if method == "max"@ {
        let st1 = match receiver.hir_id { Some(id) => spec_record(st0.0, st0.1, pat_hir_id, SafetyValue::Variable(id)), None => st0 };
        match args[0].hir_id { Some(id) => spec_record(st1.0, st1.1, pat_hir_id, SafetyValue::Variable(id)), None => st1 }
    } else if method == "clamp"@ && args.len() == 2 {
        let st1 = match args[0].hir_id { Some(id) => spec_record(st0.0, st0.1, pat_hir_id, SafetyValue::Variable(id)), None => st0 };
        spec_record_opt(st1, args[1].hir_id, SafetyValue::Variable(pat_hir_id))
    } else {
        st0
    }
}

/// What a `let pat = init` binding teaches: only a method call teaches anything.
pub open spec fn spec_check_operation(safe: Map<u64, Set<SafetyValue>>, scope: Option<Map<u64, Set<SafetyValue>>>, init: InitShape, pat_hir_id: u64)
    -> (Map<u64, Set<SafetyValue>>, Option<Map<u64, Set<SafetyValue>>>) {
    match init {
        InitShape::MethodCall { method, receiver, args } => spec_check_method_binding(safe, scope, method@, receiver, args@, pat_hir_id),
        InitShape::Other => (safe, scope),
    }
}

/// Whether `minuend - subtrahend` is known not to underflow.
pub open spec fn spec_is_subtraction_safe(
    safe: Map<u64, Set<SafetyValue>>,
    scope: Option<Map<u64, Set<SafetyValue>>>,
    minuend: ExprInfo,
    subtrahend: ExprInfo,
) -> bool {
    let m = const_int(minuend.constant);
    let s = const_int(subtrahend.constant);
    if m is Some && s is Some && (m->0 as i128) >= (s->0 as i128) {
        true
    } else if s is Some && minuend.hir_id is Some && scope is Some && scope->0.dom().contains(minuend.hir_id->0) {
        let v = SafetyValue::Constant(s->0 as i128);
        has_bound(scope->0, minuend.hir_id->0, v) || has_bound(safe, minuend.hir_id->0, v)
    } else if subtrahend.hir_id is Some && scope is Some && scope->0.dom().contains(subtrahend.hir_id->0) && m is Some {
        let v = SafetyValue::Constant(m->0 as i128);
        has_bound(scope->0, subtrahend.hir_id->0, v) || has_bound(safe, subtrahend.hir_id->0, v)
    } else if minuend.hir_id is Some && subtrahend.hir_id is Some && scope is Some && scope->0.dom().contains(minuend.hir_id->0) {
        let v = SafetyValue::Variable(subtrahend.hir_id->0);
        has_bound(scope->0, minuend.hir_id->0, v) || has_bound(safe, minuend.hir_id->0, v)
    } else {
        false
    }
}

fn const_int_exec(c: Option<ConstVal>) -> (r: Option<u128>)
    ensures
        r == const_int(c),
{
    match c {
        Some(ConstVal::Int(v)) => Some(v),
        _ => None,
    }
}

impl SubtractionContext {
    /// The function-wide bounds.
    pub open spec fn safe(&self) -> Map<u64, Set<SafetyValue>> {
        bounds_of(self.safe_subtractions@)
    }

    /// The bounds of the open scope, if any.
    pub open spec fn scope(&self) -> Option<Map<u64, Set<SafetyValue>>> {
        scope_bounds(self.current_scope)
    }

    /// No bounds and no open scope.
    pub fn new() -> (r: SubtractionContext)
        ensures
            r.safe() == Map::<u64, Set<SafetyValue>>::empty(),
            r.scope() is None,
    {
        let r = SubtractionContext { safe_subtractions: HashMap::new(), current_scope: None };
        assert(r.safe() =~= Map::<u64, Set<SafetyValue>>::empty());
        r
    }

    /// Opens a fresh scope.
    pub fn enter_scope(&mut self)
        ensures
            final(self).safe() == old(self).safe(),
            final(self).scope() == Some(Map::<u64, Set<SafetyValue>>::empty()),
    {
        self.current_scope = Some(HashMap::new());
        assert(bounds_of(Map::<u64, Vec<SafetyValue>>::empty()) =~= Map::<u64, Set<SafetyValue>>::empty());
    }

    /// Closes the scope, forgetting its bounds.
    pub fn exit_scope(&mut self)
        ensures
            final(self).safe() == old(self).safe(),
            final(self).scope() is None,
    {
        self.current_scope = None;
    }

    /// Records, in the open scope, what a comparison `less_eq <= greater_eq` teaches.
    pub fn track_comparison(&mut self, less_eq: ExprInfo, greater_eq: ExprInfo)
        ensures
            final(self).safe() == old(self).safe(),
            final(self).scope() == spec_track_comparison(old(self).scope(), less_eq, greater_eq),
    {
        if less_eq.constant.is_some() {
            if let (Some(greater_id), Some(scope), Some(val)) = (greater_eq.hir_id, &mut self.current_scope, const_int_exec(less_eq.constant)) {
                record_bound(scope, greater_id, SafetyValue::Constant(val as i128));
            }
            return;
        }
        if greater_eq.constant.is_some() {
            if let (Some(less_id), Some(scope), Some(val)) = (less_eq.hir_id, &mut self.current_scope, const_int_exec(greater_eq.constant)) {
                record_bound(scope, less_id, SafetyValue::Constant(val as i128));
            }
            return;
        }
        if let (Some(less_id), Some(greater_id), Some(scope)) = (less_eq.hir_id, greater_eq.hir_id, &mut self.current_scope) {
            record_bound(scope, greater_id, SafetyValue::Variable(less_id));
        }
    }

    fn record_safe_subtraction(&mut self, minuend: u64, subtrahend: SafetyValue)
        ensures
            (final(self).safe(), final(self).scope()) == spec_record(old(self).safe(), old(self).scope(), minuend, subtrahend),
    {
        match &mut self.current_scope {
            Some(scope) => record_bound(scope, minuend, subtrahend),
            None => record_bound(&mut self.safe_subtractions, minuend, subtrahend),
        }
    }

    /// `let r = a.min(b)`: `a` and `b` are at least `r`.
    pub fn track_min_operation(&mut self, result_hir_id: u64, a: ExprInfo, b: ExprInfo)
        ensures
            (final(self).safe(), final(self).scope()) == spec_record_opt(
                spec_record_opt((old(self).safe(), old(self).scope()), a.hir_id, SafetyValue::Variable(result_hir_id)),
                b.hir_id, SafetyValue::Variable(result_hir_id)),
    {
        if let Some(a_id) = a.hir_id {
            self.record_safe_subtraction(a_id, SafetyValue::Variable(result_hir_id));
        }
        if let Some(b_id) = b.hir_id {
            self.record_safe_subtraction(b_id, SafetyValue::Variable(result_hir_id));
        }
    }

    /// `let r = a.max(b)`: `r` is at least `a` and at least `b`.
    pub fn track_max_operation(&mut self, result_hir_id: u64, a: ExprInfo, b: ExprInfo)
        ensures
            (final(self).safe(), final(self).scope()) == {
                let st0 = (old(self).safe(), old(self).scope());
                let st1 = match a.hir_id { Some(id) => spec_record(st0.0, st0.1, result_hir_id, SafetyValue::Variable(id)), None => st0 };
                match b.hir_id { Some(id) => spec_record(st1.0, st1.1, result_hir_id, SafetyValue::Variable(id)), None => st1 }
            },
    {
        if let Some(a_id) = a.hir_id {
            self.record_safe_subtraction(result_hir_id, SafetyValue::Variable(a_id));
        }
        if let Some(b_id) = b.hir_id {
            self.record_safe_subtraction(result_hir_id, SafetyValue::Variable(b_id));
        }
    }

    /// `let r = x.clamp(min, max)`: `r` is at least `min`, and `max` is at least `r`.
    pub fn track_clamp_operation(&mut self, result_hir_id: u64, min_val: ExprInfo, max_val: ExprInfo)
        ensures
            (final(self).safe(), final(self).scope()) == {
                let st0 = (old(self).safe(), old(self).scope());
                let st1 = match min_val.hir_id { Some(id) => spec_record(st0.0, st0.1, result_hir_id, SafetyValue::Variable(id)), None => st0 };
                spec_record_opt(st1, max_val.hir_id, SafetyValue::Variable(result_hir_id))
            },
    {
        if let Some(min_id) = min_val.hir_id {
            self.record_safe_subtraction(result_hir_id, SafetyValue::Variable(min_id));
        }
        if let Some(max_id) = max_val.hir_id {
            self.record_safe_subtraction(max_id, SafetyValue::Variable(result_hir_id));
        }
    }

    /// Learns bounds from `let pat = init` when `init` is a call of `min`, `max` or `clamp`.
    pub fn check_operation(&mut self, init: &InitShape, pat_hir_id: u64)
        requires
            init matches InitShape::MethodCall { method, args, .. } ==> ((method@ == "min"@ || method@ == "max"@) ==> args@.len() >= 1),
        ensures
            (final(self).safe(), final(self).scope()) == spec_check_operation(old(self).safe(), old(self).scope(), *init, pat_hir_id),
    {
        proof {
            reveal_strlit("min");
            reveal_strlit("max");
            reveal_strlit("clamp");
        }
        if let InitShape::MethodCall { method, receiver, args } = init {
            if crate::text::str_eq(method.as_str(), "min") {
                self.track_min_operation(pat_hir_id, *receiver, args[0]);
            } else if crate::text::str_eq(method.as_str(), "max") {
                self.track_max_operation(pat_hir_id, *receiver, args[0]);
            } else if crate::text::str_eq(method.as_str(), "clamp") && args.len() == 2 {
                self.track_clamp_operation(pat_hir_id, args[0], args[1]);
            }
        }
    }

    /// Whether `minuend - subtrahend` is known not to underflow: both are constants in order,
    /// or the open scope knows a bound of the minuend (or, with a constant minuend, of the
    /// subtrahend) that the scope or the whole function records as the other operand.
    pub fn is_subtraction_safe(&self, minuend: ExprInfo, subtrahend: ExprInfo) -> (r: bool)
        ensures
            r == spec_is_subtraction_safe(self.safe(), self.scope(), minuend, subtrahend),
    {
        let m = const_int_exec(minuend.constant);
        let s = const_int_exec(subtrahend.constant);
        if let (Some(mv), Some(sv)) = (m, s) {
            if (mv as i128) >= (sv as i128) {
                return true;
            }
        }
        if let (Some(sv), Some(minuend_id), Some(scope)) = (s, minuend.hir_id, &self.current_scope) {
            if scope.contains_key(&minuend_id) {
                let value = SafetyValue::Constant(sv as i128);
                if lookup_bound(scope, minuend_id, value) {
                    return true;
                }
                return lookup_bound(&self.safe_subtractions, minuend_id, value);
            }
        }
        if let (Some(subtrahend_id), Some(scope), Some(mv)) = (subtrahend.hir_id, &self.current_scope, m) {
            if scope.contains_key(&subtrahend_id) {
                let value = SafetyValue::Constant(mv as i128);
                if lookup_bound(scope, subtrahend_id, value) {
                    return true;
                }
                return lookup_bound(&self.safe_subtractions, subtrahend_id, value);
            }
        }
        if let (Some(minuend_id), Some(subtrahend_id), Some(scope)) = (minuend.hir_id, subtrahend.hir_id, &self.current_scope) {
            if scope.contains_key(&minuend_id) {
                let value = SafetyValue::Variable(subtrahend_id);
                if lookup_bound(scope, minuend_id, value) {
                    return true;
                }
                return lookup_bound(&self.safe_subtractions, minuend_id, value);
            }
        }
        false
    }
}

/// Tracks which divisors are known to be non-zero inside the branch being visited.
pub struct DivisionContext {
    pub current_scope: Option<HashSet<u64>>,
}

/// The non-zero identifiers of the open scope, if one is open.
pub open spec fn nonzero_scope(s: Option<HashSet<u64>>) -> Option<Set<u64>> {
    match s {
        Some(t) => Some(t@),
        None => None,
    }
}

/// Records `id` as non-zero in the open scope, if any.
pub open spec fn spec_record_non_zero(scope: Option<Set<u64>>, id: u64) -> Option<Set<u64>> {
    match scope {
        Some(s) => Some(s.insert(id)),
        None => None,
    }
}

/// The effect of a comparison `less_eq <= greater_eq` on the known non-zero identifiers:
/// a non-zero integer constant bound on one side makes the other side non-zero.
pub open spec fn spec_track_division_comparison(scope: Option<Set<u64>>, less_eq: ExprInfo, greater_eq: ExprInfo) -> Option<Set<u64>> {
    if const_int(less_eq.constant) is Some {
        if greater_eq.hir_id is Some && const_int(less_eq.constant)->0 != 0 {
            spec_record_non_zero(scope, greater_eq.hir_id->0)
        } else {
            scope
        }
    } else if const_int(greater_eq.constant) is Some && less_eq.hir_id is Some && const_int(greater_eq.constant)->0 != 0 {
        spec_record_non_zero(scope, less_eq.hir_id->0)
    } else {
        scope
    }
}

/// Whether a division by `divisor` is known not to divide by zero.
pub open spec fn spec_is_division_safe(scope: Option<Set<u64>>, divisor: ExprInfo) -> bool {
    if const_int(divisor.constant) is Some {
        const_int(divisor.constant)->0 != 0
    } else if divisor.hir_id is Some && scope is Some {
        scope->0.contains(divisor.hir_id->0)
    } else {
        false
    }
}

impl DivisionContext {
    /// The non-zero identifiers of the open scope, if any.
    pub open spec fn scope(&self) -> Option<Set<u64>> {
        nonzero_scope(self.current_scope)
    }

    /// No open scope.
    pub fn new() -> (r: DivisionContext)
        ensures
            r.scope() is None,
    {
        DivisionContext { current_scope: None }
    }

    /// Opens a fresh scope.
    pub fn enter_scope(&mut self)
        ensures
            final(self).scope() == Some(Set::<u64>::empty()),
    {
        self.current_scope = Some(HashSet::new());
    }

    /// Closes the scope.
    pub fn exit_scope(&mut self)
        ensures
            final(self).scope() is None,
    {
        self.current_scope = None;
    }

    fn record_non_zero(&mut self, hir_id: u64)
        ensures
            final(self).scope() == spec_record_non_zero(old(self).scope(), hir_id),
    {
        if let Some(scope) = &mut self.current_scope {
            scope.insert(hir_id);
        }
    }

    /// Records what a comparison `less_eq <= greater_eq` teaches about non-zero values.
    pub fn track_comparison(&mut self, less_eq: ExprInfo, greater_eq: ExprInfo)
        ensures
            final(self).scope() == spec_track_division_comparison(old(self).scope(), less_eq, greater_eq),
    {
        if let Some(val) = const_int_exec(less_eq.constant) {
            if let Some(greater_id) = greater_eq.hir_id {
                if val != 0 {
                    self.record_non_zero(greater_id);
                }
            }
            return;
        }
        if let Some(val) = const_int_exec(greater_eq.constant) {
            if let Some(less_id) = less_eq.hir_id {
                if val != 0 {
                    self.record_non_zero(less_id);
                }
            }
        }
    }

    /// Records `expr != 0` (when `is_not_equal`) as making `expr` non-zero.
    pub fn track_zero_comparison(&mut self, expr: ExprInfo, is_not_equal: bool)
        ensures
            final(self).scope() == if is_not_equal && expr.hir_id is Some {
                spec_record_non_zero(old(self).scope(), expr.hir_id->0)
            } else {
                old(self).scope()
            },
    {
        if is_not_equal {
            if let Some(id) = expr.hir_id {
                self.record_non_zero(id);
            }
        }
    }

    /// Whether dividing by `divisor` is known not to divide by zero.
    pub fn is_division_safe(&self, divisor: ExprInfo) -> (r: bool)
        ensures
            r == spec_is_division_safe(self.scope(), divisor),
    {
        if let Some(val) = const_int_exec(divisor.constant) {
            return val != 0;
        }
        if let Some(id) = divisor.hir_id {
            if let Some(scope) = &self.current_scope {
                return scope.contains(&id);
            }
        }
        false
    }
}

/// The arithmetic safety knowledge of a function: subtraction bounds and non-zero divisors.
pub struct SafetyContext {
    pub subtraction_context: SubtractionContext,
    pub division_context: DivisionContext,
}

impl SafetyContext {
    /// Nothing known, no open scope.
    pub fn new() -> (r: SafetyContext)
        ensures
            r.subtraction_context.safe() == Map::<u64, Set<SafetyValue>>::empty(),
            r.subtraction_context.scope() is None,
            r.division_context.scope() is None,
    {
        SafetyContext { subtraction_context: SubtractionContext::new(), division_context: DivisionContext::new() }
    }

    /// Learns subtraction bounds from a `let` binding.
    pub fn check_operation(&mut self, init: &InitShape, pat_hir_id: u64)
        requires
            init matches InitShape::MethodCall { method, args, .. } ==> ((method@ == "min"@ || method@ == "max"@) ==> args@.len() >= 1),
        ensures
            final(self).division_context.scope() == old(self).division_context.scope(),
            (final(self).subtraction_context.safe(), final(self).subtraction_context.scope())
                == spec_check_operation(old(self).subtraction_context.safe(), old(self).subtraction_context.scope(), *init, pat_hir_id),
    {
        self.subtraction_context.check_operation(init, pat_hir_id);
    }

    /// Whether `minuend - subtrahend` is known not to underflow.
    pub fn is_subtraction_safe(&self, minuend: ExprInfo, subtrahend: ExprInfo) -> (r: bool)
        ensures
            r == spec_is_subtraction_safe(self.subtraction_context.safe(), self.subtraction_context.scope(), minuend, subtrahend),
    {
        self.subtraction_context.is_subtraction_safe(minuend, subtrahend)
    }

    /// Whether dividing by `divisor` is known not to divide by zero.
    pub fn is_division_safe(&self, divisor: ExprInfo) -> (r: bool)
        ensures
            r == spec_is_division_safe(self.division_context.scope(), divisor),
    {
        self.division_context.is_division_safe(divisor)
    }

    /// Opens a fresh scope for both kinds of knowledge.
    pub fn enter_scope(&mut self)
        ensures
            final(self).subtraction_context.safe() == old(self).subtraction_context.safe(),
            final(self).subtraction_context.scope() == Some(Map::<u64, Set<SafetyValue>>::empty()),
            final(self).division_context.scope() == Some(Set::<u64>::empty()),
    {
        self.subtraction_context.enter_scope();
        self.division_context.enter_scope();
    }

    /// Closes the scope of both kinds of knowledge.
    pub fn exit_scope(&mut self)
        ensures
            final(self).subtraction_context.safe() == old(self).subtraction_context.safe(),
            final(self).subtraction_context.scope() is None,
            final(self).division_context.scope() is None,
    {
        self.subtraction_context.exit_scope();
        self.division_context.exit_scope();
    }

    /// Records what a comparison `less_eq <= greater_eq` teaches.
    pub fn track_comparison(&mut self, less_eq: ExprInfo, greater_eq: ExprInfo)
        ensures
            final(self).subtraction_context.safe() == old(self).subtraction_context.safe(),
            final(self).subtraction_context.scope() == spec_track_comparison(old(self).subtraction_context.scope(), less_eq, greater_eq),
            final(self).division_context.scope() == spec_track_division_comparison(old(self).division_context.scope(), less_eq, greater_eq),
    {
        self.subtraction_context.track_comparison(less_eq, greater_eq);
        self.division_context.track_comparison(less_eq, greater_eq);
    }

    /// Records a comparison with zero.
    pub fn track_zero_comparison(&mut self, expr: ExprInfo, is_not_equal: bool)
        ensures
            final(self).subtraction_context.safe() == old(self).subtraction_context.safe(),
            final(self).subtraction_context.scope() == old(self).subtraction_context.scope(),
            final(self).division_context.scope() == if is_not_equal && expr.hir_id is Some {
                spec_record_non_zero(old(self).division_context.scope(), expr.hir_id->0)
            } else {
                old(self).division_context.scope()
            },
    {
        self.division_context.track_zero_comparison(expr, is_not_equal);
    }
}

/// Inside a branch guarded by `less <= greater` on two variables, `greater - less` is safe.
pub proof fn law_variable_comparison_guards_subtraction(
    safe: Map<u64, Set<SafetyValue>>,
    scope: Map<u64, Set<SafetyValue>>,
    less: ExprInfo,
    greater: ExprInfo,
)
    requires
        less.constant is None,
        greater.constant is None,
        less.hir_id is Some,
        greater.hir_id is Some,
    ensures
        spec_is_subtraction_safe(safe, spec_track_comparison(Some(scope), less, greater), greater, less),
{
}

/// Inside a branch guarded by `c <= x` with `c` an integer constant and `x` a variable,
/// `x - c` is safe.
pub proof fn law_constant_comparison_guards_subtraction(
    safe: Map<u64, Set<SafetyValue>>,
    scope: Map<u64, Set<SafetyValue>>,
    c: ExprInfo,
    x: ExprInfo,
)
    requires
        const_int(c.constant) is Some,
        x.constant is None,
        x.hir_id is Some,
    ensures
        spec_is_subtraction_safe(safe, spec_track_comparison(Some(scope), c, x), x, c),
{
}

/// Inside a branch guarded by `x != 0`, dividing by the variable `x` is safe.
pub proof fn law_nonzero_guard_makes_division_safe(scope: Set<u64>, x: ExprInfo)
    requires
        x.constant is None,
        x.hir_id is Some,
    ensures
        spec_is_division_safe(spec_record_non_zero(Some(scope), x.hir_id->0), x),
{
}

/// Outside any guarded branch, a subtraction whose minuend is not a constant is never known
/// safe: the function-wide bounds are consulted only beside those of an open branch.
pub proof fn law_exit_scope_forgets(safe: Map<u64, Set<SafetyValue>>, minuend: ExprInfo, subtrahend: ExprInfo)
    requires
        minuend.constant is None,
    ensures
        spec_is_subtraction_safe(safe, None, minuend, subtrahend) == false,
{
}

} // verus!
