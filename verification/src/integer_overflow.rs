//! Integer overflow and underflow in the arithmetic of substrate pallets: a walk over a
//! function body that flags each arithmetic operation that could overflow, underflow or
//! divide by zero, unless a guard or a `min`/`max`/`clamp` binding shows it safe.
use vstd::prelude::*;
use std::collections::HashMap;
use crate::hir::{Expr, ExprKind, Stmt, BinOpKind, UnOp, Span, spec_get_expr_hir_id_opt, get_expr_hir_id_opt};
use crate::safety_context::{
    ConstVal, ExprInfo, SafetyValue, SafetyContext, InitShape, const_int,
    spec_check_method_binding, spec_is_subtraction_safe, spec_is_division_safe,
    spec_track_comparison, spec_track_division_comparison, spec_record_non_zero,
};
use crate::text::str_eq;
use crate::seqs::{extends, lemma_extends_trans, lemma_extends_contains};

verus! {

broadcast use vstd::std_specs::hash::group_hash_axioms;

/// What an operation could do wrong.
#[derive(Debug, Clone, Copy, PartialEq, Eq, Structural)]
pub enum Type {
    Overflow,
    Underflow,
    OverflowUnderflow,
}

/// The words for a kind of failure.
pub open spec fn type_message(t: Type) -> Seq<char> {
    match t {
        Type::Overflow => "overflow"@,
        Type::Underflow => "underflow"@,
        Type::OverflowUnderflow => "overflow or underflow"@,
    }
}

impl Type {
    /// The words for this kind of failure.
    pub fn message(&self) -> (r: &'static str)
        ensures
            r@ == type_message(*self),
    {
        match self {
            Type::Overflow => "overflow",
            Type::Underflow => "underflow",
            Type::OverflowUnderflow => "overflow or underflow",
        }
    }
}

/// The operation that could fail.
#[derive(Debug, Clone, Copy, PartialEq, Eq, Structural)]
pub enum Cause {
    Add,
    Sub,
    Mul,
    Pow,
    Div,
    Negate,
    Multiple,
}

/// The words for an operation.
pub open spec fn cause_message(c: Cause) -> Seq<char> {
    match c {
        Cause::Add => "addition operation"@,
        Cause::Sub => "subtraction operation"@,
        Cause::Mul => "multiplication operation"@,
        Cause::Pow => "exponentiation operation"@,
        Cause::Div => "division operation"@,
        Cause::Negate => "negation operation"@,
        Cause::Multiple => "operation"@,
    }
}

impl Cause {
    /// The words for this operation.
    pub fn message(&self) -> (r: &'static str)
        ensures
            r@ == cause_message(*self),
    {
        match self {
            Cause::Add => "addition operation",
            Cause::Sub => "subtraction operation",
            Cause::Mul => "multiplication operation",
            Cause::Pow => "exponentiation operation",
            Cause::Div => "division operation",
            Cause::Negate => "negation operation",
            Cause::Multiple => "operation",
        }
    }
}

/// An operation that could fail, where it stands, and how.
#[derive(Debug, Clone, Copy, PartialEq, Eq, Structural)]
pub struct Finding {
    pub span: Span,
    pub type_: Type,
    pub cause: Cause,
}

/// The message reported for a finding.
pub open spec fn finding_message(f: Finding) -> Seq<char> {
    "This "@ + cause_message(f.cause) + " could "@ + type_message(f.type_) + "."@
}

impl Finding {
    /// A finding of `type_` caused by `cause` at `span`.
    pub fn new(span: Span, type_: Type, cause: Cause) -> (r: Finding)
        ensures
            r == (Finding { span, type_, cause }),
    {
        Finding { span, type_, cause }
    }

    /// "This <operation> could <failure>."
    pub fn generate_message(&self) -> (r: String)
        ensures
            r@ == finding_message(*self),
    {
        let mut s = String::from_str("This ");
        s.append(self.cause.message());
        s.append(" could ");
        s.append(self.type_.message());
        s.append(".");
        s
    }
}

/// What the type checker and the constant analysis know of an expression: its constant
/// value, whether its type (references peeled) is an integer or a `Balance`, and whether
/// that type is signed.
#[derive(Debug, Clone, Copy, PartialEq, Eq, Structural)]
pub struct OperandFacts {
    pub constant: Option<ConstVal>,
    pub susceptible: bool,
    pub signed: bool,
}

/// The facts of an expression that the table does not list: nothing known.
pub open spec fn no_facts() -> OperandFacts {
    OperandFacts { constant: None, susceptible: false, signed: false }
}

/// The facts of `e`, by its identifier.
pub open spec fn fact_of(facts: Map<u64, OperandFacts>, e: Expr) -> OperandFacts {
    if facts.dom().contains(e.hir_id) { facts[e.hir_id] } else { no_facts() }
}

/// What the safety checks read of `e`.
pub open spec fn info_of(facts: Map<u64, OperandFacts>, e: Expr) -> ExprInfo {
    ExprInfo { constant: fact_of(facts, e).constant, hir_id: spec_get_expr_hir_id_opt(e) }
}

/// The state of a walk: the findings so far, whether the last binary operation was part of
/// a compound one, the function-wide subtraction bounds and the knowledge of the open
/// guarded branch.
pub struct ScanState {
    pub findings: Seq<Finding>,
    pub complex: bool,
    pub safe: Map<u64, Set<SafetyValue>>,
    pub sub_scope: Option<Map<u64, Set<SafetyValue>>>,
    pub div_scope: Option<Set<u64>>,
}

/// The state before a walk: nothing found, nothing known.
pub open spec fn initial_state() -> ScanState {
    ScanState {
        findings: Seq::empty(),
        complex: false,
        safe: Map::empty(),
        sub_scope: None,
        div_scope: None,
    }
}

/// The state with one more finding.
pub open spec fn with_finding(s: ScanState, span: Span, t: Type, c: Cause) -> ScanState {
    ScanState { findings: s.findings.push(Finding { span, type_: t, cause: c }), ..s }
}

/// `base.pow(exponent)` could overflow unless both are constants or the base is not an
/// integer.
pub open spec fn spec_check_pow(facts: Map<u64, OperandFacts>, s: ScanState, span: Span, base: Expr, exponent: Expr) -> ScanState {
    if fact_of(facts, base).constant is Some && fact_of(facts, exponent).constant is Some {
        s
    } else if fact_of(facts, base).susceptible {
        with_finding(s, span, Type::Overflow, Cause::Pow)
    } else {
        s
    }
}

/// `-operand` could overflow when the operand is a non-constant signed integer.
pub open spec fn spec_check_negate(facts: Map<u64, OperandFacts>, s: ScanState, span: Span, operand: Expr) -> ScanState {
    let f = fact_of(facts, operand);
    if f.constant is Some {
        s
    } else if f.susceptible && f.signed {
        with_finding(s, span, Type::Overflow, Cause::Negate)
    } else {
        s
    }
}

/// A binary operation on two integers, not both constant, could fail: any part of a
/// compound operation could overflow or underflow; otherwise an addition or a
/// multiplication could overflow, a subtraction not known safe could underflow, and a
/// division by a divisor not known non-zero is flagged.
pub open spec fn spec_check_binary(facts: Map<u64, OperandFacts>, s: ScanState, span: Span, op: BinOpKind, left: Expr, right: Expr) -> ScanState {
    let fl = fact_of(facts, left);
    let fr = fact_of(facts, right);
    if fl.constant is Some && fr.constant is Some {
        s
    } else if !fl.susceptible || !fr.susceptible {
        s
    } else if s.complex {
        with_finding(s, span, Type::OverflowUnderflow, Cause::Multiple)
    } else {
        match op {
            BinOpKind::Add => with_finding(s, span, Type::Overflow, Cause::Add),
            BinOpKind::Sub => if spec_is_subtraction_safe(s.safe, s.sub_scope, info_of(facts, left), info_of(facts, right)) {
                s
            } else {
                with_finding(s, span, Type::Underflow, Cause::Sub)
            },
            BinOpKind::Mul => with_finding(s, span, Type::Overflow, Cause::Mul),
            BinOpKind::Div => if spec_is_division_safe(s.div_scope, info_of(facts, right)) {
                s
            } else {
                with_finding(s, span, Type::Overflow, Cause::Div)
            },
            _ => s,
        }
    }
}

/// The bounds taught by `let pat = init`.
pub open spec fn spec_bind(facts: Map<u64, OperandFacts>, s: ScanState, init: Expr, pat_hir_id: u64) -> ScanState {
    match init.kind {
        ExprKind::MethodCall { method, receiver, args, .. } => {
            let r = spec_check_method_binding(
                s.safe,
                s.sub_scope,
                method@,
                info_of(facts, *receiver),
                args@.map_values(|a: Expr| info_of(facts, a)),
                pat_hir_id,
            );
            ScanState { safe: r.0, sub_scope: r.1, ..s }
        },
        _ => s,
    }
}

/// What the condition of an `if` teaches its branch.
#[derive(Debug, Clone, Copy, PartialEq, Eq, Structural)]
pub enum Guard {
    /// The first operand is at most the second.
    LessEq(ExprInfo, ExprInfo),
    /// The operand is compared with zero; `true` for `!=`.
    Zero(ExprInfo, bool),
}

/// How the walk treats an `if`: walk it whole, visit only its branch, or visit its branch
/// under a guard.
#[derive(Debug, Clone, Copy, PartialEq, Eq, Structural)]
pub enum IfShape {
    Plain,
    ThenOnly,
    Guarded(Guard),
}

/// The treatment of an `if` with condition `cond`.
pub open spec fn spec_if_shape(facts: Map<u64, OperandFacts>, cond: Expr) -> IfShape {
    match cond.kind {
        ExprKind::DropTemps(inner) => match inner.kind {
            ExprKind::Binary(op, lhs, rhs) => match op {
                BinOpKind::Gt | BinOpKind::Ge => IfShape::Guarded(Guard::LessEq(info_of(facts, *rhs), info_of(facts, *lhs))),
                BinOpKind::Lt | BinOpKind::Le => IfShape::Guarded(Guard::LessEq(info_of(facts, *lhs), info_of(facts, *rhs))),
                BinOpKind::Eq | BinOpKind::Ne => if const_int(fact_of(facts, *lhs).constant) == Some(0u128) {
                    IfShape::Guarded(Guard::Zero(info_of(facts, *rhs), op == BinOpKind::Ne))
                } else if const_int(fact_of(facts, *rhs).constant) == Some(0u128) {
                    IfShape::Guarded(Guard::Zero(info_of(facts, *lhs), op == BinOpKind::Ne))
                } else {
                    IfShape::ThenOnly
                },
                _ => IfShape::ThenOnly,
            },
            _ => IfShape::Plain,
        },
        _ => IfShape::Plain,
    }
}

/// The state on entering a branch under `g`: a fresh scope that knows what `g` teaches.
pub open spec fn enter_guard(s: ScanState, g: Guard) -> ScanState {
    let sub0 = Some(Map::<u64, Set<SafetyValue>>::empty());
    let div0 = Some(Set::<u64>::empty());
    match g {
        Guard::LessEq(a, b) => ScanState {
            sub_scope: spec_track_comparison(sub0, a, b),
            div_scope: spec_track_division_comparison(div0, a, b),
            ..s
        },
        Guard::Zero(x, ne) => ScanState {
            sub_scope: sub0,
            div_scope: if ne && x.hir_id is Some { spec_record_non_zero(div0, x.hir_id->0) } else { div0 },
            ..s
        },
    }
}

/// The state on leaving a guarded branch: no scope is open.
pub open spec fn exit_guard(s: ScanState) -> ScanState {
    ScanState { sub_scope: None, div_scope: None, ..s }
}

/// Whether the expression is a binary operation.
pub open spec fn is_binary(e: Expr) -> bool {
    e.kind is Binary
}

/// Visiting `e`: the checks on `e` itself, then, unless `e` is a compound binary operation or
/// an `if` the checks treat themselves, a visit of its parts.
pub open spec fn scan(facts: Map<u64, OperandFacts>, e: Expr, s: ScanState) -> ScanState
    decreases e, 1nat,
{
    match e.kind {
        ExprKind::Binary(op, l, r) => {
            let c = is_binary(*l) || is_binary(*r);
            let s1 = spec_check_binary(facts, ScanState { complex: c, ..s }, e.span, op, *l, *r);
            if c { s1 } else { walk(facts, e, s1) }
        },
        ExprKind::AssignOp(op, l, r) => {
            let c = is_binary(*l) || is_binary(*r);
            let s1 = spec_check_binary(facts, ScanState { complex: c, ..s }, e.span, op, *l, *r);
            if c { s1 } else { walk(facts, e, s1) }
        },
        ExprKind::Unary(op, x) => if op == UnOp::Neg {
            walk(facts, e, spec_check_negate(facts, s, e.span, *x))
        } else {
            walk(facts, e, s)
        },
        ExprKind::Block { stmts, tail } => walk(facts, e, scan_lets(facts, stmts@, s)),
        ExprKind::Let { pat_hir_id, init } => walk(facts, e, spec_bind(facts, s, *init, pat_hir_id)),
        ExprKind::If { cond, then, els } => match spec_if_shape(facts, *cond) {
            IfShape::Plain => walk(facts, e, s),
            IfShape::ThenOnly => scan(facts, *then, s),
            IfShape::Guarded(g) => exit_guard(scan(facts, *then, enter_guard(s, g))),
        },
        ExprKind::MethodCall { method, receiver, args, .. } => if method@ == "pow"@ {
            walk(facts, e, spec_check_pow(facts, s, e.span, *receiver, args@[0]))
        } else {
            walk(facts, e, s)
        },
        _ => walk(facts, e, s),
    }
}

/// Visiting the parts of `e`, in the order of the compiler's walk.
pub open spec fn walk(facts: Map<u64, OperandFacts>, e: Expr, s: ScanState) -> ScanState
    decreases e, 0nat,
{
    match e.kind {
        ExprKind::Lit(_) => s,
        ExprKind::Path(_) => s,
        ExprKind::Binary(_, l, r) => scan(facts, *r, scan(facts, *l, s)),
        ExprKind::AssignOp(_, l, r) => scan(facts, *l, scan(facts, *r, s)),
        ExprKind::Assign(l, r) => scan(facts, *l, scan(facts, *r, s)),
        ExprKind::Unary(_, x) => scan(facts, *x, s),
        ExprKind::AddrOf(_, x) => scan(facts, *x, s),
        ExprKind::DropTemps(x) => scan(facts, *x, s),
        ExprKind::Cast(x, _) => scan(facts, *x, s),
        ExprKind::MethodCall { receiver, args, .. } => scan_seq(facts, args@, scan(facts, *receiver, s)),
        ExprKind::Call { callee, args } => scan_seq(facts, args@, scan(facts, *callee, s)),
        ExprKind::Block { stmts, tail } => {
            let s1 = scan_stmts(facts, stmts@, s);
            match tail {
                Some(t) => scan(facts, *t, s1),
                None => s1,
            }
        },
        ExprKind::If { cond, then, els } => {
            let s1 = scan(facts, *then, scan(facts, *cond, s));
            match els {
                Some(x) => scan(facts, *x, s1),
                None => s1,
            }
        },
        ExprKind::Let { init, .. } => scan(facts, *init, s),
        ExprKind::Closure(_) => s,
        ExprKind::Other(cs) => scan_seq(facts, cs@, s),
    }
}

/// Visiting a sequence of expressions in order.
pub open spec fn scan_seq(facts: Map<u64, OperandFacts>, es: Seq<Expr>, s: ScanState) -> ScanState
    decreases es, 0nat,
{
    if es.len() == 0 {
        s
    } else {
        scan(facts, es[es.len() - 1], scan_seq(facts, es.subrange(0, es.len() - 1), s))
    }
}

/// The first pass over a block: each `let` with an initializer has it visited and then
/// learns from the binding.
pub open spec fn scan_lets(facts: Map<u64, OperandFacts>, ss: Seq<Stmt>, s: ScanState) -> ScanState
    decreases ss, 0nat,
{
    if ss.len() == 0 {
        s
    } else {
        let s0 = scan_lets(facts, ss.subrange(0, ss.len() - 1), s);
        match ss[ss.len() - 1] {
            Stmt::Let { pat_hir_id, init, .. } => match init {
                Some(i) => spec_bind(facts, scan(facts, i, s0), i, pat_hir_id),
                None => s0,
            },
            _ => s0,
        }
    }
}

/// The compiler's walk over a block's statements: initializers and expression statements.
pub open spec fn scan_stmts(facts: Map<u64, OperandFacts>, ss: Seq<Stmt>, s: ScanState) -> ScanState
    decreases ss, 0nat,
{
    if ss.len() == 0 {
        s
    } else {
        let s0 = scan_stmts(facts, ss.subrange(0, ss.len() - 1), s);
        match ss[ss.len() - 1] {
            Stmt::Let { init, .. } => match init {
                Some(i) => scan(facts, i, s0),
                None => s0,
            },
            Stmt::Expr(x) => scan(facts, x, s0),
            Stmt::Item => s0,
        }
    }
}

/// The method calls whose argument the checks read: `pow`, `min` and `max`.
pub open spec fn needs_arg(method: Seq<char>) -> bool {
    method == "pow"@ || method == "min"@ || method == "max"@
}

/// Every call of `pow`, `min` or `max` in `e` has an argument, as the compiler guarantees.
pub open spec fn calls_ok(e: Expr) -> bool
    decreases e, 1nat,
{
    &&& match e.kind {
        ExprKind::MethodCall { method, args, .. } => needs_arg(method@) ==> args@.len() >= 1,
        _ => true,
    }
    &&& parts_ok(e)
}

/// Every part of `e` satisfies [`calls_ok`].
pub open spec fn parts_ok(e: Expr) -> bool
    decreases e, 0nat,
{
    match e.kind {
        ExprKind::Lit(_) => true,
        ExprKind::Path(_) => true,
        ExprKind::Binary(_, l, r) => calls_ok(*l) && calls_ok(*r),
        ExprKind::AssignOp(_, l, r) => calls_ok(*l) && calls_ok(*r),
        ExprKind::Assign(l, r) => calls_ok(*l) && calls_ok(*r),
        ExprKind::Unary(_, x) => calls_ok(*x),
        ExprKind::AddrOf(_, x) => calls_ok(*x),
        ExprKind::DropTemps(x) => calls_ok(*x),
        ExprKind::Cast(x, _) => calls_ok(*x),
        ExprKind::MethodCall { receiver, args, .. } => calls_ok(*receiver) && calls_ok_seq(args@),
        ExprKind::Call { callee, args } => calls_ok(*callee) && calls_ok_seq(args@),
        ExprKind::Block { stmts, tail } => stmts_ok(stmts@) && match tail {
            Some(t) => calls_ok(*t),
            None => true,
        },
        ExprKind::If { cond, then, els } => calls_ok(*cond) && calls_ok(*then) && match els {
            Some(x) => calls_ok(*x),
            None => true,
        },
        ExprKind::Let { init, .. } => calls_ok(*init),
        ExprKind::Closure(_) => true,
        ExprKind::Other(cs) => calls_ok_seq(cs@),
    }
}

/// Every expression of the sequence satisfies [`calls_ok`].
pub open spec fn calls_ok_seq(es: Seq<Expr>) -> bool
    decreases es, 0nat,
{
    es.len() == 0 || (calls_ok_seq(es.subrange(0, es.len() - 1)) && calls_ok(es[es.len() - 1]))
}

/// Every initializer and expression statement of the sequence satisfies [`calls_ok`].
pub open spec fn stmts_ok(ss: Seq<Stmt>) -> bool
    decreases ss, 0nat,
{
    ss.len() == 0 || (stmts_ok(ss.subrange(0, ss.len() - 1)) && match ss[ss.len() - 1] {
        Stmt::Let { init, .. } => match init {
            Some(i) => calls_ok(i),
            None => true,
        },
        Stmt::Expr(x) => calls_ok(x),
        Stmt::Item => true,
    })
}

proof fn lemma_calls_ok_seq_prefix(es: Seq<Expr>, i: int)
    requires
        calls_ok_seq(es),
        0 <= i <= es.len(),
    ensures
        calls_ok_seq(es.subrange(0, i)),
        i < es.len() ==> calls_ok(es[i]),
    decreases es.len(),
{
    if i < es.len() {
        let p = es.subrange(0, es.len() - 1);
        assert(p.subrange(0, i) =~= es.subrange(0, i));
        if i < es.len() - 1 {
            lemma_calls_ok_seq_prefix(p, i);
            assert(p[i] == es[i]);
        } else {
            assert(p =~= es.subrange(0, i));
        }
    } else {
        assert(es.subrange(0, i) =~= es);
    }
}

proof fn lemma_stmts_ok_prefix(ss: Seq<Stmt>, i: int)
    requires
        stmts_ok(ss),
        0 <= i <= ss.len(),
    ensures
        stmts_ok(ss.subrange(0, i)),
        i < ss.len() ==> stmts_ok(ss.subrange(0, i + 1)),
    decreases ss.len(),
{
    if i < ss.len() {
        let p = ss.subrange(0, ss.len() - 1);
        assert(p.subrange(0, i) =~= ss.subrange(0, i));
        if i < ss.len() - 1 {
            lemma_stmts_ok_prefix(p, i);
            assert(p.subrange(0, i + 1) =~= ss.subrange(0, i + 1));
        } else {
            assert(p =~= ss.subrange(0, i));
            assert(ss.subrange(0, i + 1) =~= ss);
        }
    } else {
        assert(ss.subrange(0, i) =~= ss);
    }
}

/// A walk over a function body that collects the arithmetic operations that could fail.
pub struct IntegerOverflowOrUnderflowVisitor {
    pub facts: HashMap<u64, OperandFacts>,
    pub findings: Vec<Finding>,
    pub is_complex_operation: bool,
    pub safety_context: SafetyContext,
}

fn is_binary_expr(e: &Expr) -> (r: bool)
    ensures
        r == is_binary(*e),
{
    matches!(e.kind, ExprKind::Binary(..))
}

impl IntegerOverflowOrUnderflowVisitor {
    /// The state of the walk.
    pub open spec fn state(&self) -> ScanState {
        ScanState {
            findings: self.findings@,
            complex: self.is_complex_operation,
            safe: self.safety_context.subtraction_context.safe(),
            sub_scope: self.safety_context.subtraction_context.scope(),
            div_scope: self.safety_context.division_context.scope(),
        }
    }

    /// A walk that reads the facts of `facts`, with nothing found and nothing known yet.
    pub fn new(facts: HashMap<u64, OperandFacts>) -> (r: IntegerOverflowOrUnderflowVisitor)
        ensures
            r.facts@ == facts@,
            r.state() == initial_state(),
    {
        let r = IntegerOverflowOrUnderflowVisitor {
            facts,
            findings: Vec::new(),
            is_complex_operation: false,
            safety_context: SafetyContext::new(),
        };
        assert(r.state().findings =~= Seq::<Finding>::empty());
        r
    }

    fn fact(&self, e: &Expr) -> (r: OperandFacts)
        ensures
            r == fact_of(self.facts@, *e),
    {
        match self.facts.get(&e.hir_id) {
            Some(f) => *f,
            None => OperandFacts { constant: None, susceptible: false, signed: false },
        }
    }

    fn info(&self, e: &Expr) -> (r: ExprInfo)
        ensures
            r == info_of(self.facts@, *e),
    {
        ExprInfo { constant: self.fact(e).constant, hir_id: get_expr_hir_id_opt(e) }
    }

    /// Whether the type of `e` is an integer type or `Balance`, references peeled.
    pub fn is_overflow_susceptible_type(&self, e: &Expr) -> (r: bool)
        ensures
            r == fact_of(self.facts@, *e).susceptible,
    {
        self.fact(e).susceptible
    }

    /// Flags `base.pow(exponent)` at `expr` when it could overflow.
    pub fn check_pow(&mut self, expr: &Expr, base: &Expr, exponent: &Expr)
        ensures
            final(self).facts == old(self).facts,
            final(self).state() == spec_check_pow(old(self).facts@, old(self).state(), expr.span, *base, *exponent),
    {
        if self.fact(base).constant.is_some() && self.fact(exponent).constant.is_some() {
            return;
        }
        if self.is_overflow_susceptible_type(base) {
            self.findings.push(Finding::new(expr.span, Type::Overflow, Cause::Pow));
        }
    }

    /// Flags the negation `expr` of `operand` when it could overflow.
    pub fn check_negate(&mut self, expr: &Expr, operand: &Expr)
        ensures
            final(self).facts == old(self).facts,
            final(self).state() == spec_check_negate(old(self).facts@, old(self).state(), expr.span, *operand),
    {
        let f = self.fact(operand);
        if f.constant.is_some() {
            return;
        }
        if f.susceptible && f.signed {
            self.findings.push(Finding::new(expr.span, Type::Overflow, Cause::Negate));
        }
    }

    /// Flags the binary operation `expr` = `left op right` when it could fail.
    pub fn check_binary(&mut self, expr: &Expr, op: BinOpKind, left: &Expr, right: &Expr)
        ensures
            final(self).facts == old(self).facts,
            final(self).state() == spec_check_binary(old(self).facts@, old(self).state(), expr.span, op, *left, *right),
    {
        let fl = self.fact(left);
        let fr = self.fact(right);
        if fl.constant.is_some() && fr.constant.is_some() {
            return;
        }
        if !fl.susceptible || !fr.susceptible {
            return;
        }
        let (finding_type, cause) = if self.is_complex_operation {
            (Type::OverflowUnderflow, Cause::Multiple)
        } else {
            match op {
                BinOpKind::Add => (Type::Overflow, Cause::Add),
                BinOpKind::Sub => {
                    if self.safety_context.is_subtraction_safe(self.info(left), self.info(right)) {
                        return;
                    }
                    (Type::Underflow, Cause::Sub)
                },
                BinOpKind::Mul => (Type::Overflow, Cause::Mul),
                BinOpKind::Div => {
                    if self.safety_context.is_division_safe(self.info(right)) {
                        return;
                    }
                    (Type::Overflow, Cause::Div)
                },
                _ => {
                    return;
                },
            }
        };
        self.findings.push(Finding::new(expr.span, finding_type, cause));
    }

    /// Learns the bounds of `let pat = init`.
    #[verifier::loop_isolation(false)]
    fn bind(&mut self, init: &Expr, pat_hir_id: u64)
        requires
            init.kind matches ExprKind::MethodCall { method, args, .. } ==> (needs_arg(method@) ==> args@.len() >= 1),
        ensures
            final(self).facts == old(self).facts,
            final(self).state() == spec_bind(old(self).facts@, old(self).state(), *init, pat_hir_id),
    {
        proof {
            reveal_strlit("pow");
            reveal_strlit("min");
            reveal_strlit("max");
        }
        if let ExprKind::MethodCall { method, receiver, args, .. } = &init.kind {
            let ghost facts = self.facts@;
            let mut infos: Vec<ExprInfo> = Vec::new();
            let mut j: usize = 0;
            while j < args.len()
                invariant
                    j <= args@.len(),
                    self.facts == old(self).facts,
                    infos@ == args@.subrange(0, j as int).map_values(|a: Expr| info_of(facts, a)),
                decreases args@.len() - j,
            {
                let x = self.info(&args[j]);
                infos.push(x);
                assert(args@.subrange(0, j + 1).map_values(|a: Expr| info_of(facts, a))
                    =~= args@.subrange(0, j as int).map_values(|a: Expr| info_of(facts, a)).push(x));
                j = j + 1;
            }
            assert(args@.subrange(0, args@.len() as int) =~= args@);
            let shape = InitShape::MethodCall { method: method.clone(), receiver: self.info(receiver), args: infos };
            self.safety_context.check_operation(&shape, pat_hir_id);
        }
    }

    fn if_shape(&self, cond: &Expr) -> (r: IfShape)
        ensures
            r == spec_if_shape(self.facts@, *cond),
    {
        if let ExprKind::DropTemps(inner) = &cond.kind {
            if let ExprKind::Binary(op, lhs, rhs) = &inner.kind {
                return match op {
                    BinOpKind::Gt | BinOpKind::Ge => IfShape::Guarded(Guard::LessEq(self.info(rhs), self.info(lhs))),
                    BinOpKind::Lt | BinOpKind::Le => IfShape::Guarded(Guard::LessEq(self.info(lhs), self.info(rhs))),
                    BinOpKind::Eq | BinOpKind::Ne => {
                        let is_ne = *op == BinOpKind::Ne;
                        if self.fact(lhs).constant == Some(ConstVal::Int(0)) {
                            IfShape::Guarded(Guard::Zero(self.info(rhs), is_ne))
                        } else if self.fact(rhs).constant == Some(ConstVal::Int(0)) {
                            IfShape::Guarded(Guard::Zero(self.info(lhs), is_ne))
                        } else {
                            IfShape::ThenOnly
                        }
                    },
                    _ => IfShape::ThenOnly,
                };
            }
        }
        IfShape::Plain
    }

    /// Visits `e`: the checks on `e` itself, then its parts, as [`scan`] states.
    pub fn visit_expr(&mut self, e: &Expr)
        requires
            calls_ok(*e),
        ensures
            final(self).facts == old(self).facts,
            final(self).state() == scan(old(self).facts@, *e, old(self).state()),
        decreases *e, 1nat,
    {
        proof {
            reveal_strlit("pow");
            reveal_strlit("min");
            reveal_strlit("max");
        }
        match &e.kind {
            ExprKind::Binary(op, l, r) => {
                self.is_complex_operation = is_binary_expr(l) || is_binary_expr(r);
                self.check_binary(e, *op, l, r);
                if self.is_complex_operation {
                    return;
                }
            },
            ExprKind::AssignOp(op, l, r) => {
                self.is_complex_operation = is_binary_expr(l) || is_binary_expr(r);
                self.check_binary(e, *op, l, r);
                if self.is_complex_operation {
                    return;
                }
            },
            ExprKind::Unary(op, x) => {
                if *op == UnOp::Neg {
                    self.check_negate(e, x);
                }
            },
            ExprKind::Block { stmts, .. } => {
                self.visit_block_lets(stmts);
            },
            ExprKind::Let { pat_hir_id, init } => {
                assert(parts_ok(*e));
                assert(calls_ok(**init));
                self.bind(init, *pat_hir_id);
            },
            ExprKind::If { cond, then, .. } => {
                match self.if_shape(cond) {
                    IfShape::Plain => {},
                    IfShape::ThenOnly => {
                        self.visit_expr(then);
                        return;
                    },
                    IfShape::Guarded(g) => {
                        self.safety_context.enter_scope();
                        match g {
                            Guard::LessEq(a, b) => self.safety_context.track_comparison(a, b),
                            Guard::Zero(x, ne) => self.safety_context.track_zero_comparison(x, ne),
                        }
                        self.visit_expr(then);
                        self.safety_context.exit_scope();
                        return;
                    },
                }
            },
            ExprKind::MethodCall { method, receiver, args, .. } => {
                if str_eq(method.as_str(), "pow") {
                    self.check_pow(e, receiver, &args[0]);
                }
            },
            _ => {},
        }
        self.walk_expr(e);
    }

    /// Visits the parts of `e` in the order of the compiler's walk.
    fn walk_expr(&mut self, e: &Expr)
        requires
            parts_ok(*e),
        ensures
            final(self).facts == old(self).facts,
            final(self).state() == walk(old(self).facts@, *e, old(self).state()),
        decreases *e, 0nat,
    {
        match &e.kind {
            ExprKind::Lit(_) => {},
            ExprKind::Path(_) => {},
            ExprKind::Binary(_, l, r) => {
                self.visit_expr(l);
                self.visit_expr(r);
            },
            ExprKind::AssignOp(_, l, r) => {
                self.visit_expr(r);
                self.visit_expr(l);
            },
            ExprKind::Assign(l, r) => {
                self.visit_expr(r);
                self.visit_expr(l);
            },
            ExprKind::Unary(_, x) => self.visit_expr(x),
            ExprKind::AddrOf(_, x) => self.visit_expr(x),
            ExprKind::DropTemps(x) => self.visit_expr(x),
            ExprKind::Cast(x, _) => self.visit_expr(x),
            ExprKind::MethodCall { receiver, args, .. } => {
                self.visit_expr(receiver);
                self.visit_exprs(args);
            },
            ExprKind::Call { callee, args } => {
                self.visit_expr(callee);
                self.visit_exprs(args);
            },
            ExprKind::Block { stmts, tail } => {
                self.visit_stmts(stmts);
                if let Some(t) = tail {
                    self.visit_expr(t);
                }
            },
            ExprKind::If { cond, then, els } => {
                self.visit_expr(cond);
                self.visit_expr(then);
                if let Some(x) = els {
                    self.visit_expr(x);
                }
            },
            ExprKind::Let { init, .. } => self.visit_expr(init),
            ExprKind::Closure(_) => {},
            ExprKind::Other(cs) => self.visit_exprs(cs),
        }
    }

    /// Visits the expressions in order.
    #[verifier::loop_isolation(false)]
    fn visit_exprs(&mut self, es: &Vec<Expr>)
        requires
            calls_ok_seq(es@),
        ensures
            final(self).facts == old(self).facts,
            final(self).state() == scan_seq(old(self).facts@, es@, old(self).state()),
        decreases *es, 0nat,
    {
        let ghost facts = self.facts@;
        let ghost s0 = self.state();
        let mut i: usize = 0;
        while i < es.len()
            invariant
                i <= es@.len(),
                self.facts == old(self).facts,
                self.state() == scan_seq(facts, es@.subrange(0, i as int), s0),
            decreases es@.len() - i,
        {
            proof {
                lemma_calls_ok_seq_prefix(es@, i as int);
                assert(decreases_to!(*es => es@));
                assert(decreases_to!(es@ => es@[i as int]));
                let p = es@.subrange(0, i + 1);
                assert(p.subrange(0, p.len() - 1) =~= es@.subrange(0, i as int));
            }
            self.visit_expr(&es[i]);
            i = i + 1;
        }
        assert(es@.subrange(0, es@.len() as int) =~= es@);
    }

    /// The first pass over a block's statements.
    #[verifier::loop_isolation(false)]
    fn visit_block_lets(&mut self, stmts: &Vec<Stmt>)
        requires
            stmts_ok(stmts@),
        ensures
            final(self).facts == old(self).facts,
            final(self).state() == scan_lets(old(self).facts@, stmts@, old(self).state()),
        decreases *stmts, 0nat,
    {
        let ghost facts = self.facts@;
        let ghost s0 = self.state();
        let mut i: usize = 0;
        while i < stmts.len()
            invariant
                i <= stmts@.len(),
                self.facts == old(self).facts,
                self.state() == scan_lets(facts, stmts@.subrange(0, i as int), s0),
            decreases stmts@.len() - i,
        {
            proof {
                lemma_stmts_ok_prefix(stmts@, i as int);
                let p = stmts@.subrange(0, i + 1);
                assert(p.subrange(0, p.len() - 1) =~= stmts@.subrange(0, i as int));
                assert(p[p.len() - 1] == stmts@[i as int]);
                assert(decreases_to!(*stmts => stmts@));
                assert(decreases_to!(stmts@ => stmts@[i as int]));
            }
            if let Stmt::Let { pat_hir_id, init: Some(x), .. } = &stmts[i] {
                proof {
                    assert(decreases_to!(stmts@[i as int] => stmts@[i as int]->Let_init));
                }
                assert(stmts_ok(stmts@.subrange(0, i + 1)));
                assert(calls_ok(*x));
                self.visit_expr(x);
                self.bind(x, *pat_hir_id);
            }
            i = i + 1;
        }
        assert(stmts@.subrange(0, stmts@.len() as int) =~= stmts@);
    }

    /// The compiler's walk over a block's statements.
    #[verifier::loop_isolation(false)]
    fn visit_stmts(&mut self, stmts: &Vec<Stmt>)
        requires
            stmts_ok(stmts@),
        ensures
            final(self).facts == old(self).facts,
            final(self).state() == scan_stmts(old(self).facts@, stmts@, old(self).state()),
        decreases *stmts, 0nat,
    {
        let ghost facts = self.facts@;
        let ghost s0 = self.state();
        let mut i: usize = 0;
        while i < stmts.len()
            invariant
                i <= stmts@.len(),
                self.facts == old(self).facts,
                self.state() == scan_stmts(facts, stmts@.subrange(0, i as int), s0),
            decreases stmts@.len() - i,
        {
            proof {
                lemma_stmts_ok_prefix(stmts@, i as int);
                let p = stmts@.subrange(0, i + 1);
                assert(p.subrange(0, p.len() - 1) =~= stmts@.subrange(0, i as int));
                assert(p[p.len() - 1] == stmts@[i as int]);
                assert(decreases_to!(*stmts => stmts@));
                assert(decreases_to!(stmts@ => stmts@[i as int]));
            }
            match &stmts[i] {
                Stmt::Let { init, .. } => {
                    if let Some(x) = init {
                        proof {
                            assert(decreases_to!(stmts@[i as int] => stmts@[i as int]->Let_init));
                        }
                        self.visit_expr(x);
                    }
                },
                Stmt::Expr(x) => {
                    self.visit_expr(x);
                },
                Stmt::Item => {},
            }
            i = i + 1;
        }
        assert(stmts@.subrange(0, stmts@.len() as int) =~= stmts@);
    }
}

/// The lint pass for integer overflow and underflow in pallets.
pub struct IntegerOverflowOrUnderflow;

impl IntegerOverflowOrUnderflow {
    /// The findings in a function body: none for a function that a macro expanded, else those
    /// of a walk over the body with the facts of `facts`.
    pub fn check_fn(&self, body: &Expr, facts: HashMap<u64, OperandFacts>, from_expansion: bool) -> (r: Vec<Finding>)
        requires
            calls_ok(*body),
        ensures
            r@ == if from_expansion { Seq::<Finding>::empty() } else { scan(facts@, *body, initial_state()).findings },
    {
        if from_expansion {
            return Vec::new();
        }
        let mut visitor = IntegerOverflowOrUnderflowVisitor::new(facts);
        visitor.visit_expr(body);
        visitor.findings
    }
}

/// A walk only adds findings: those found before it stay, in place.
pub proof fn lemma_scan_visit_ext(facts: Map<u64, OperandFacts>, e: Expr, s: ScanState)
    ensures
        extends(s.findings, scan(facts, e, s).findings),
    decreases e, 1nat,
{
    match e.kind {
        ExprKind::Binary(op, l, r) => {
            let c = is_binary(*l) || is_binary(*r);
            let s1 = spec_check_binary(facts, ScanState { complex: c, ..s }, e.span, op, *l, *r);
            if !c {
                lemma_scan_walk_ext(facts, e, s1);
                lemma_extends_trans(s.findings, s1.findings, walk(facts, e, s1).findings);
            }
        },
        ExprKind::AssignOp(op, l, r) => {
            let c = is_binary(*l) || is_binary(*r);
            let s1 = spec_check_binary(facts, ScanState { complex: c, ..s }, e.span, op, *l, *r);
            if !c {
                lemma_scan_walk_ext(facts, e, s1);
                lemma_extends_trans(s.findings, s1.findings, walk(facts, e, s1).findings);
            }
        },
        ExprKind::Unary(op, x) => {
            let s1 = if op == UnOp::Neg { spec_check_negate(facts, s, e.span, *x) } else { s };
            lemma_scan_walk_ext(facts, e, s1);
            lemma_extends_trans(s.findings, s1.findings, walk(facts, e, s1).findings);
        },
        ExprKind::Block { stmts, tail } => {
            let s1 = scan_lets(facts, stmts@, s);
            lemma_scan_lets_ext(facts, stmts@, s);
            lemma_scan_walk_ext(facts, e, s1);
            lemma_extends_trans(s.findings, s1.findings, walk(facts, e, s1).findings);
        },
        ExprKind::Let { pat_hir_id, init } => {
            lemma_scan_walk_ext(facts, e, spec_bind(facts, s, *init, pat_hir_id));
        },
        ExprKind::If { cond, then, els } => match spec_if_shape(facts, *cond) {
            IfShape::Plain => lemma_scan_walk_ext(facts, e, s),
            IfShape::ThenOnly => lemma_scan_visit_ext(facts, *then, s),
            IfShape::Guarded(g) => lemma_scan_visit_ext(facts, *then, enter_guard(s, g)),
        },
        ExprKind::MethodCall { method, receiver, args, .. } => {
            let s1 = if method@ == "pow"@ { spec_check_pow(facts, s, e.span, *receiver, args@[0]) } else { s };
            lemma_scan_walk_ext(facts, e, s1);
            lemma_extends_trans(s.findings, s1.findings, walk(facts, e, s1).findings);
        },
        _ => lemma_scan_walk_ext(facts, e, s),
    }
}

/// The first pass over a block only adds findings.
pub proof fn lemma_scan_lets_ext(facts: Map<u64, OperandFacts>, ss: Seq<Stmt>, s: ScanState)
    ensures
        extends(s.findings, scan_lets(facts, ss, s).findings),
    decreases ss, 0nat,
{
    if ss.len() > 0 {
        let p = ss.subrange(0, ss.len() - 1);
        let a = scan_lets(facts, p, s);
        lemma_scan_lets_ext(facts, p, s);
        match ss[ss.len() - 1] {
            Stmt::Let { pat_hir_id, init, .. } => match init {
                Some(i) => {
                    lemma_scan_visit_ext(facts, i, a);
                    lemma_extends_trans(s.findings, a.findings, scan(facts, i, a).findings);
                },
                None => {},
            },
            _ => {},
        }
    }
}

/// A walk only adds findings: those found before it stay, in place.
pub proof fn lemma_scan_walk_ext(facts: Map<u64, OperandFacts>, e: Expr, s: ScanState)
    ensures
        extends(s.findings, walk(facts, e, s).findings),
    decreases e, 0nat,
{
    match e.kind {
        ExprKind::Binary(_, l, r) => {
            let a = scan(facts, *l, s);
            lemma_scan_visit_ext(facts, *l, s);
            lemma_scan_visit_ext(facts, *r, a);
            lemma_extends_trans(s.findings, a.findings, scan(facts, *r, a).findings);
        },
        ExprKind::AssignOp(_, l, r) => {
            let a = scan(facts, *r, s);
            lemma_scan_visit_ext(facts, *r, s);
            lemma_scan_visit_ext(facts, *l, a);
            lemma_extends_trans(s.findings, a.findings, scan(facts, *l, a).findings);
        },
        ExprKind::Assign(l, r) => {
            let a = scan(facts, *r, s);
            lemma_scan_visit_ext(facts, *r, s);
            lemma_scan_visit_ext(facts, *l, a);
            lemma_extends_trans(s.findings, a.findings, scan(facts, *l, a).findings);
        },
        ExprKind::Unary(_, y) => lemma_scan_visit_ext(facts, *y, s),
        ExprKind::AddrOf(_, y) => lemma_scan_visit_ext(facts, *y, s),
        ExprKind::DropTemps(y) => lemma_scan_visit_ext(facts, *y, s),
        ExprKind::Cast(y, _) => lemma_scan_visit_ext(facts, *y, s),
        ExprKind::MethodCall { receiver, args, .. } => {
            let a = scan(facts, *receiver, s);
            lemma_scan_visit_ext(facts, *receiver, s);
            lemma_scan_seq_ext(facts, args@, a);
            lemma_extends_trans(s.findings, a.findings, scan_seq(facts, args@, a).findings);
        },
        ExprKind::Call { callee, args } => {
            let a = scan(facts, *callee, s);
            lemma_scan_visit_ext(facts, *callee, s);
            lemma_scan_seq_ext(facts, args@, a);
            lemma_extends_trans(s.findings, a.findings, scan_seq(facts, args@, a).findings);
        },
        ExprKind::Block { stmts, tail } => {
            let a = scan_stmts(facts, stmts@, s);
            lemma_scan_stmts_ext(facts, stmts@, s);
            match tail {
                Some(tl) => {
                    lemma_scan_visit_ext(facts, *tl, a);
                    lemma_extends_trans(s.findings, a.findings, scan(facts, *tl, a).findings);
                },
                None => {},
            }
        },
        ExprKind::If { cond, then, els } => {
            let a = scan(facts, *cond, s);
            let b = scan(facts, *then, a);
            lemma_scan_visit_ext(facts, *cond, s);
            lemma_scan_visit_ext(facts, *then, a);
            lemma_extends_trans(s.findings, a.findings, b.findings);
            match els {
                Some(y) => {
                    lemma_scan_visit_ext(facts, *y, b);
                    lemma_extends_trans(s.findings, b.findings, scan(facts, *y, b).findings);
                },
                None => {},
            }
        },
        ExprKind::Let { init, .. } => lemma_scan_visit_ext(facts, *init, s),
        ExprKind::Other(cs) => lemma_scan_seq_ext(facts, cs@, s),
        _ => {},
    }
}

/// A walk only adds findings: those found before it stay, in place.
pub proof fn lemma_scan_seq_ext(facts: Map<u64, OperandFacts>, es: Seq<Expr>, s: ScanState)
    ensures
        extends(s.findings, scan_seq(facts, es, s).findings),
    decreases es, 0nat,
{
    if es.len() > 0 {
        let p = es.subrange(0, es.len() - 1);
        let a = scan_seq(facts, p, s);
        lemma_scan_seq_ext(facts, p, s);
        lemma_scan_visit_ext(facts, es[es.len() - 1], a);
        lemma_extends_trans(s.findings, a.findings, scan(facts, es[es.len() - 1], a).findings);
    }
}

/// A walk only adds findings: those found before it stay, in place.
pub proof fn lemma_scan_stmts_ext(facts: Map<u64, OperandFacts>, ss: Seq<Stmt>, s: ScanState)
    ensures
        extends(s.findings, scan_stmts(facts, ss, s).findings),
    decreases ss, 0nat,
{
    if ss.len() > 0 {
        let p = ss.subrange(0, ss.len() - 1);
        let a = scan_stmts(facts, p, s);
        lemma_scan_stmts_ext(facts, p, s);
        match ss[ss.len() - 1] {
            Stmt::Let { init, .. } => match init {
                Some(i) => {
                    lemma_scan_visit_ext(facts, i, a);
                    lemma_extends_trans(s.findings, a.findings, scan(facts, i, a).findings);
                },
                None => {},
            },
            Stmt::Expr(y) => {
                lemma_scan_visit_ext(facts, y, a);
                lemma_extends_trans(s.findings, a.findings, scan(facts, y, a).findings);
            },
            Stmt::Item => {},
        }
    }
}


/// How a binary operation is judged: one whose operands are not both integers, or are both
/// constants, is never reported; a part of a compound operation is reported as a possible
/// overflow or underflow; otherwise an addition and a multiplication are reported as possible
/// overflows, a subtraction as a possible underflow unless the guards make it safe, a division
/// unless its divisor is known non-zero, and no other operator is reported. A report adds one
/// finding at the operation's span to those before; nothing else changes.
pub proof fn law_binary_operation_judged(
    facts: Map<u64, OperandFacts>,
    s: ScanState,
    span: Span,
    op: BinOpKind,
    left: Expr,
    right: Expr,
)
    ensures
        ({
            let r = spec_check_binary(facts, s, span, op, left, right);
            let fl = fact_of(facts, left);
            let fr = fact_of(facts, right);
            let judged = !(fl.constant is Some && fr.constant is Some) && fl.susceptible && fr.susceptible;
            let reported = |t: Type, c: Cause| r == ScanState { findings: s.findings.push(Finding { span, type_: t, cause: c }), ..s };
            &&& !judged ==> r == s
            &&& judged && s.complex ==> reported(Type::OverflowUnderflow, Cause::Multiple)
            &&& judged && !s.complex && op == BinOpKind::Add ==> reported(Type::Overflow, Cause::Add)
            &&& judged && !s.complex && op == BinOpKind::Mul ==> reported(Type::Overflow, Cause::Mul)
            &&& judged && !s.complex && op == BinOpKind::Sub ==> if spec_is_subtraction_safe(s.safe, s.sub_scope, info_of(facts, left), info_of(facts, right)) {
                r == s
            } else {
                reported(Type::Underflow, Cause::Sub)
            }
            &&& judged && !s.complex && op == BinOpKind::Div ==> if spec_is_division_safe(s.div_scope, info_of(facts, right)) {
                r == s
            } else {
                reported(Type::Overflow, Cause::Div)
            }
            &&& judged && !s.complex && !(op == BinOpKind::Add || op == BinOpKind::Sub || op == BinOpKind::Mul || op == BinOpKind::Div) ==> r == s
        }),
{
}

/// A simple binary operation the walk visits is reported by its operator: visiting `l op r`
/// whose operands are not themselves binary operations, on two integers not both constant,
/// ends with the finding of `op` at its span among the findings (for `*`, a possible
/// overflow from a multiplication), after all those found before.
pub proof fn law_simple_operation_reported(facts: Map<u64, OperandFacts>, e: Expr, s: ScanState)
    requires
        e.kind is Binary,
        !is_binary(*e.kind->Binary_1),
        !is_binary(*e.kind->Binary_2),
        !(fact_of(facts, *e.kind->Binary_1).constant is Some && fact_of(facts, *e.kind->Binary_2).constant is Some),
        fact_of(facts, *e.kind->Binary_1).susceptible,
        fact_of(facts, *e.kind->Binary_2).susceptible,
    ensures
        extends(s.findings, scan(facts, e, s).findings),
        e.kind->Binary_0 == BinOpKind::Mul ==> scan(facts, e, s).findings.contains(Finding { span: e.span, type_: Type::Overflow, cause: Cause::Mul }),
        e.kind->Binary_0 == BinOpKind::Add ==> scan(facts, e, s).findings.contains(Finding { span: e.span, type_: Type::Overflow, cause: Cause::Add }),
{
    lemma_scan_visit_ext(facts, e, s);
    let s0 = ScanState { complex: false, ..s };
    let s1 = spec_check_binary(facts, s0, e.span, e.kind->Binary_0, *e.kind->Binary_1, *e.kind->Binary_2);
    lemma_scan_walk_ext(facts, e, s1);
    if e.kind->Binary_0 == BinOpKind::Mul {
        let f = Finding { span: e.span, type_: Type::Overflow, cause: Cause::Mul };
        assert(s1.findings[s.findings.len() as int] == f);
        lemma_extends_contains(s1.findings, walk(facts, e, s1).findings, f);
    }
    if e.kind->Binary_0 == BinOpKind::Add {
        let f = Finding { span: e.span, type_: Type::Overflow, cause: Cause::Add };
        assert(s1.findings[s.findings.len() as int] == f);
        lemma_extends_contains(s1.findings, walk(facts, e, s1).findings, f);
    }
}

} // verus!
