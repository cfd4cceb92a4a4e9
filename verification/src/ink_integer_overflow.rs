//! Integer overflow and underflow in ink! contracts: the lint pass reports each integer
//! arithmetic expression, once per expression tree, outside constant and static bodies.
use vstd::prelude::*;
use std::collections::HashMap;
use crate::hir::{Expr, ExprKind, BinOpKind, UnOp, LitKind, Span, span_contains, contains, binop_text};

verus! {

broadcast use vstd::std_specs::hash::group_hash_axioms;

/// The help of a report on an arithmetic operation, by the operator's text.
pub open spec fn operation_help(op_text: Seq<char>) -> Seq<char> {
    "Potential for integer arithmetic overflow/underflow in operation '"@ + op_text
        + "'. Consider checked, wrapping or saturating arithmetic."@
}

/// The help of a report on a division by a negated literal one.
pub open spec fn negative_divisor_help() -> Seq<char> {
    "Potential for integer arithmetic overflow/underflow in unary operation with negative expression. Consider checked, wrapping or saturating arithmetic."@
}

/// The help of a report on a negation.
pub open spec fn negation_help() -> Seq<char> {
    "Potential for integer arithmetic overflow/underflow. Consider checked, wrapping or saturating arithmetic."@
}

/// The text of a compound assignment operator: the operator followed by `=`.
pub open spec fn assign_op_text(op: BinOpKind) -> Seq<char> {
    binop_text(op) + "="@
}

/// A report: where, and with which help.
pub struct OverflowReport {
    pub span: Span,
    pub help: String,
}

/// Where the pass stands: the expression whose tree was already reported (until the walk
/// leaves it), and the span of the constant or static body being linted, if any.
#[derive(Debug, Clone, Copy, PartialEq, Eq, Structural)]
pub struct ArithmeticContext {
    pub expr_id: Option<u64>,
    pub const_span: Option<Span>,
}

/// Whether an expression at `span` is passed over: a report is pending in the tree that holds
/// it, or it lies in a constant body.
pub open spec fn spec_skip(c: ArithmeticContext, span: Span) -> bool {
    c.expr_id is Some || (c.const_span is Some && span_contains(c.const_span->0, span))
}

/// Operators that never overflow: the logical, bitwise and comparison operators.
pub open spec fn is_non_arithmetic(op: BinOpKind) -> bool {
    match op {
        BinOpKind::And | BinOpKind::Or | BinOpKind::BitAnd | BinOpKind::BitOr | BinOpKind::BitXor
        | BinOpKind::Eq | BinOpKind::Lt | BinOpKind::Le | BinOpKind::Ne | BinOpKind::Ge | BinOpKind::Gt => true,
        _ => false,
    }
}

/// `e` is the integer literal `v`.
pub open spec fn is_integer_literal(e: Expr, v: u128) -> bool {
    e.kind matches ExprKind::Lit(LitKind::Int(x)) && x == v
}

/// The report on an integer operation `expr` whose right operand is `r`: none for a
/// division or remainder by a literal; for one by a negated literal one, a report at that
/// literal; none for one by another negation; a report at `expr` for every other case.
/// The report is given by its span, its help and the expression whose tree it covers.
pub open spec fn operation_outcome(expr: Expr, is_div_rem: bool, r: Expr, op_text: Seq<char>) -> Option<(Span, Seq<char>, u64)> {
    if is_div_rem {
        match r.kind {
            ExprKind::Lit(_) => None,
            ExprKind::Unary(UnOp::Neg, inner) => if is_integer_literal(*inner, 1) {
                Some((inner.span, negative_divisor_help(), inner.hir_id))
            } else {
                None
            },
            _ => Some((expr.span, operation_help(op_text), expr.hir_id)),
        }
    } else {
        Some((expr.span, operation_help(op_text), expr.hir_id))
    }
}

/// The report on the binary operation `expr` = `l op r`, where `l_integral` and `r_integral`
/// say whether the operands' types, references peeled, are integers.
pub open spec fn binary_outcome(c: ArithmeticContext, expr: Expr, op: BinOpKind, r: Expr, l_integral: bool, r_integral: bool)
    -> Option<(Span, Seq<char>, u64)>
{
    if spec_skip(c, expr.span) || is_non_arithmetic(op) || !(l_integral && r_integral) {
        None
    } else {
        operation_outcome(expr, op == BinOpKind::Div || op == BinOpKind::Rem, r, binop_text(op))
    }
}

/// The bitwise operators, which never overflow.
pub open spec fn is_bitwise(op: BinOpKind) -> bool {
    op == BinOpKind::BitAnd || op == BinOpKind::BitOr || op == BinOpKind::BitXor
}

/// The report on the compound assignment `expr` = `l op= r`; `&=`, `|=` and `^=` never
/// overflow.
pub open spec fn assignment_outcome(c: ArithmeticContext, expr: Expr, op: BinOpKind, r: Expr, l_integral: bool, r_integral: bool)
    -> Option<(Span, Seq<char>, u64)>
{
    if spec_skip(c, expr.span) || is_bitwise(op) || !(l_integral && r_integral) {
        None
    } else {
        operation_outcome(expr, op == BinOpKind::Div || op == BinOpKind::Rem, r, assign_op_text(op))
    }
}

/// The report on the negation `expr`, where `expr_is_constant` says whether it evaluates to
/// a constant and `arg_integral` whether its operand's type is an integer.
pub open spec fn negate_outcome(c: ArithmeticContext, expr: Expr, expr_is_constant: bool, arg_integral: bool) -> Option<(Span, Seq<char>, u64)> {
    if spec_skip(c, expr.span) || expr_is_constant || !arg_integral {
        None
    } else {
        Some((expr.span, negation_help(), expr.hir_id))
    }
}

/// A report was made as the outcome says, and the context now covers its tree; or there is
/// no outcome and nothing changed.
pub open spec fn reported_as(old_c: ArithmeticContext, new_c: ArithmeticContext, r: Option<OverflowReport>, o: Option<(Span, Seq<char>, u64)>) -> bool {
    match o {
        None => r is None && new_c == old_c,
        Some(t) => r is Some && r->0.span == t.0 && r->0.help@ == t.1
            && new_c == (ArithmeticContext { expr_id: Some(t.2), ..old_c }),
    }
}

fn operation_help_exec(op_text: &str) -> (r: String)
    ensures
        r@ == operation_help(op_text@),
{
    let mut s = String::from_str("Potential for integer arithmetic overflow/underflow in operation '");
    s.append(op_text);
    s.append("'. Consider checked, wrapping or saturating arithmetic.");
    s
}

fn is_integer_literal_exec(e: &Expr, v: u128) -> (r: bool)
    ensures
        r == is_integer_literal(*e, v),
{
    match e.kind {
        ExprKind::Lit(LitKind::Int(x)) => x == v,
        _ => false,
    }
}

impl ArithmeticContext {
    /// No pending report, no constant body.
    pub fn new() -> (r: ArithmeticContext)
        ensures
            r.expr_id is None,
            r.const_span is None,
    {
        ArithmeticContext { expr_id: None, const_span: None }
    }

    /// Whether `e` is passed over.
    pub fn skip_expr(&self, e: &Expr) -> (r: bool)
        ensures
            r == spec_skip(*self, e.span),
    {
        if self.expr_id.is_some() {
            return true;
        }
        match self.const_span {
            Some(span) => contains(span, e.span),
            None => false,
        }
    }

    fn report_operation(&mut self, expr: &Expr, is_div_rem: bool, r: &Expr, op_text: &str) -> (rep: Option<OverflowReport>)
        ensures
            reported_as(*old(self), *final(self), rep, operation_outcome(*expr, is_div_rem, *r, op_text@)),
    {
        proof {
            reveal_strlit("Potential for integer arithmetic overflow/underflow in unary operation with negative expression. Consider checked, wrapping or saturating arithmetic.");
        }
        if is_div_rem {
            match &r.kind {
                ExprKind::Lit(_) => None,
                ExprKind::Unary(UnOp::Neg, inner) => {
                    if is_integer_literal_exec(inner, 1) {
                        self.expr_id = Some(inner.hir_id);
                        Some(OverflowReport {
                            span: inner.span,
                            help: String::from_str("Potential for integer arithmetic overflow/underflow in unary operation with negative expression. Consider checked, wrapping or saturating arithmetic."),
                        })
                    } else {
                        None
                    }
                },
                _ => {
                    self.expr_id = Some(expr.hir_id);
                    Some(OverflowReport { span: expr.span, help: operation_help_exec(op_text) })
                },
            }
        } else {
            self.expr_id = Some(expr.hir_id);
            Some(OverflowReport { span: expr.span, help: operation_help_exec(op_text) })
        }
    }

    /// Reports the binary operation `expr` = `l op r` as [`binary_outcome`] says.
    pub fn check_binary(&mut self, expr: &Expr, op: BinOpKind, l: &Expr, r: &Expr, l_integral: bool, r_integral: bool) -> (rep: Option<OverflowReport>)
        ensures
            reported_as(*old(self), *final(self), rep, binary_outcome(*old(self), *expr, op, *r, l_integral, r_integral)),
    {
        if self.skip_expr(expr) {
            return None;
        }
        match op {
            BinOpKind::And | BinOpKind::Or | BinOpKind::BitAnd | BinOpKind::BitOr | BinOpKind::BitXor
            | BinOpKind::Eq | BinOpKind::Lt | BinOpKind::Le | BinOpKind::Ne | BinOpKind::Ge | BinOpKind::Gt => {
                return None;
            },
            _ => {},
        }
        if l_integral && r_integral {
            let is_div_rem = op == BinOpKind::Div || op == BinOpKind::Rem;
            self.report_operation(expr, is_div_rem, r, op.as_str())
        } else {
            None
        }
    }

    /// Reports the compound assignment `expr` = `l op= r` as [`assignment_outcome`] says.
    pub fn check_assignment(&mut self, expr: &Expr, op: BinOpKind, l: &Expr, r: &Expr, l_integral: bool, r_integral: bool) -> (rep: Option<OverflowReport>)
        ensures
            reported_as(*old(self), *final(self), rep, assignment_outcome(*old(self), *expr, op, *r, l_integral, r_integral)),
    {
        if self.skip_expr(expr) {
            return None;
        }
        if op == BinOpKind::BitAnd || op == BinOpKind::BitOr || op == BinOpKind::BitXor {
            return None;
        }
        if l_integral && r_integral {
            let is_div_rem = op == BinOpKind::Div || op == BinOpKind::Rem;
            let text = String::from_str(op.as_str()).concat("=");
            self.report_operation(expr, is_div_rem, r, text.as_str())
        } else {
            None
        }
    }

    /// Reports the negation `expr` as [`negate_outcome`] says.
    pub fn check_negate(&mut self, expr: &Expr, arg: &Expr, expr_is_constant: bool, arg_integral: bool) -> (rep: Option<OverflowReport>)
        ensures
            reported_as(*old(self), *final(self), rep, negate_outcome(*old(self), *expr, expr_is_constant, arg_integral)),
    {
        proof {
            reveal_strlit("Potential for integer arithmetic overflow/underflow. Consider checked, wrapping or saturating arithmetic.");
        }
        if self.skip_expr(expr) {
            return None;
        }
        if !expr_is_constant && arg_integral {
            self.expr_id = Some(expr.hir_id);
            Some(OverflowReport {
                span: expr.span,
                help: String::from_str("Potential for integer arithmetic overflow/underflow. Consider checked, wrapping or saturating arithmetic."),
            })
        } else {
            None
        }
    }

    /// Leaving the expression `id`: a report pending for its tree is done.
    pub fn expr_post(&mut self, id: u64)
        ensures
            *final(self) == (if old(self).expr_id == Some(id) { ArithmeticContext { expr_id: None, ..*old(self) } } else { *old(self) }),
    {
        if self.expr_id == Some(id) {
            self.expr_id = None;
        }
    }

    /// Entering a body: a constant or static body whose span `body_span` does not lie in the
    /// constant body already entered becomes the constant body.
    pub fn enter_body(&mut self, owner_is_const_or_static: bool, body_span: Span)
        ensures
            *final(self) == (if owner_is_const_or_static
                && !(old(self).const_span is Some && span_contains(old(self).const_span->0, body_span)) {
                ArithmeticContext { const_span: Some(body_span), ..*old(self) }
            } else {
                *old(self)
            }),
    {
        if owner_is_const_or_static {
            if let Some(span) = self.const_span {
                if contains(span, body_span) {
                    return;
                }
            }
            self.const_span = Some(body_span);
        }
    }

    /// Leaving a body: unless it lies in the constant body, no constant body is entered.
    pub fn body_post(&mut self, body_span: Span)
        ensures
            *final(self) == (if old(self).const_span is Some && span_contains(old(self).const_span->0, body_span) {
                *old(self)
            } else {
                ArithmeticContext { const_span: None, ..*old(self) }
            }),
    {
        if let Some(span) = self.const_span {
            if contains(span, body_span) {
                return;
            }
        }
        self.const_span = None;
    }
}

/// What the type checker and the constant evaluator know of an expression: whether its type
/// is an integer, whether it is one once references are peeled, and whether the expression
/// evaluates to a constant on its own.
#[derive(Debug, Clone, Copy, PartialEq, Eq, Structural)]
pub struct IntegerFacts {
    pub integral: bool,
    pub integral_peeled: bool,
    pub constant: bool,
}

/// The facts of `e`; nothing is known of an expression the table does not list.
pub open spec fn integer_facts_of(facts: Map<u64, IntegerFacts>, e: Expr) -> IntegerFacts {
    if facts.dom().contains(e.hir_id) {
        facts[e.hir_id]
    } else {
        IntegerFacts { integral: false, integral_peeled: false, constant: false }
    }
}

/// The report on an expression that the pass meets.
pub open spec fn expr_outcome(c: ArithmeticContext, facts: Map<u64, IntegerFacts>, e: Expr) -> Option<(Span, Seq<char>, u64)> {
    match e.kind {
        ExprKind::Binary(op, l, r) => binary_outcome(
            c, e, op, *r, integer_facts_of(facts, *l).integral_peeled, integer_facts_of(facts, *r).integral_peeled),
        ExprKind::AssignOp(op, l, r) => assignment_outcome(
            c, e, op, *r, integer_facts_of(facts, *l).integral_peeled, integer_facts_of(facts, *r).integral_peeled),
        ExprKind::Unary(op, arg) => if op == UnOp::Neg {
            negate_outcome(c, e, integer_facts_of(facts, e).constant, integer_facts_of(facts, *arg).integral)
        } else {
            None
        },
        _ => None,
    }
}

/// The lint pass: one arithmetic context for the whole crate.
pub struct IntegerOverflowOrUnderflow {
    pub arithmetic_context: ArithmeticContext,
}

impl IntegerOverflowOrUnderflow {
    /// A pass with a fresh context.
    pub fn new() -> (r: IntegerOverflowOrUnderflow)
        ensures
            r.arithmetic_context.expr_id is None,
            r.arithmetic_context.const_span is None,
    {
        IntegerOverflowOrUnderflow { arithmetic_context: ArithmeticContext::new() }
    }

    fn facts_of(facts: &HashMap<u64, IntegerFacts>, e: &Expr) -> (r: IntegerFacts)
        ensures
            r == integer_facts_of(facts@, *e),
    {
        match facts.get(&e.hir_id) {
            Some(f) => *f,
            None => IntegerFacts { integral: false, integral_peeled: false, constant: false },
        }
    }

    /// The pass meets `e`: binary operations, compound assignments and negations are checked.
    pub fn check_expr(&mut self, e: &Expr, facts: &HashMap<u64, IntegerFacts>) -> (rep: Option<OverflowReport>)
        ensures
            reported_as(old(self).arithmetic_context, final(self).arithmetic_context, rep,
                expr_outcome(old(self).arithmetic_context, facts@, *e)),
    {
        match &e.kind {
            ExprKind::Binary(op, l, r) => {
                let li = Self::facts_of(facts, l).integral_peeled;
                let ri = Self::facts_of(facts, r).integral_peeled;
                self.arithmetic_context.check_binary(e, *op, l, r, li, ri)
            },
            ExprKind::AssignOp(op, l, r) => {
                let li = Self::facts_of(facts, l).integral_peeled;
                let ri = Self::facts_of(facts, r).integral_peeled;
                self.arithmetic_context.check_assignment(e, *op, l, r, li, ri)
            },
            ExprKind::Unary(op, arg) => {
                if *op == UnOp::Neg {
                    let c = Self::facts_of(facts, e).constant;
                    let ai = Self::facts_of(facts, arg).integral;
                    self.arithmetic_context.check_negate(e, arg, c, ai)
                } else {
                    None
                }
            },
            _ => None,
        }
    }

    /// The pass leaves the expression `id`.
    pub fn check_expr_post(&mut self, id: u64)
        ensures
            final(self).arithmetic_context == (if old(self).arithmetic_context.expr_id == Some(id) {
                ArithmeticContext { expr_id: None, ..old(self).arithmetic_context }
            } else {
                old(self).arithmetic_context
            }),
    {
        self.arithmetic_context.expr_post(id);
    }

    /// The pass enters a body.
    pub fn check_body(&mut self, owner_is_const_or_static: bool, body_span: Span)
        ensures
            final(self).arithmetic_context == (if owner_is_const_or_static
                && !(old(self).arithmetic_context.const_span is Some
                    && span_contains(old(self).arithmetic_context.const_span->0, body_span)) {
                ArithmeticContext { const_span: Some(body_span), ..old(self).arithmetic_context }
            } else {
                old(self).arithmetic_context
            }),
    {
        self.arithmetic_context.enter_body(owner_is_const_or_static, body_span);
    }

    /// The pass leaves a body.
    pub fn check_body_post(&mut self, body_span: Span)
        ensures
            final(self).arithmetic_context == (if old(self).arithmetic_context.const_span is Some
                && span_contains(old(self).arithmetic_context.const_span->0, body_span) {
                old(self).arithmetic_context
            } else {
                ArithmeticContext { const_span: None, ..old(self).arithmetic_context }
            }),
    {
        self.arithmetic_context.body_post(body_span);
    }
}


/// One report per expression tree: once a report is made, the context covers the reported
/// expression, and no binary operation, compound assignment or negation is reported until the
/// walk leaves that expression, which lifts the cover.
pub proof fn law_one_report_per_tree(
    c: ArithmeticContext,
    c2: ArithmeticContext,
    r: Option<OverflowReport>,
    t: (Span, Seq<char>, u64),
    expr: Expr,
    op: BinOpKind,
    rhs: Expr,
    l_integral: bool,
    r_integral: bool,
    expr_is_constant: bool,
)
    requires
        reported_as(c, c2, r, Some(t)),
    ensures
        c2.expr_id == Some(t.2),
        binary_outcome(c2, expr, op, rhs, l_integral, r_integral) is None,
        assignment_outcome(c2, expr, op, rhs, l_integral, r_integral) is None,
        negate_outcome(c2, expr, expr_is_constant, l_integral) is None,
        (if c2.expr_id == Some(t.2) { ArithmeticContext { expr_id: None, ..c2 } } else { c2 }).expr_id is None,
{
}

/// Nothing inside the constant or static body being linted is reported.
pub proof fn law_constant_body_not_reported(
    c: ArithmeticContext,
    expr: Expr,
    op: BinOpKind,
    rhs: Expr,
    l_integral: bool,
    r_integral: bool,
    expr_is_constant: bool,
)
    requires
        c.const_span matches Some(s) && span_contains(s, expr.span),
    ensures
        binary_outcome(c, expr, op, rhs, l_integral, r_integral) is None,
        assignment_outcome(c, expr, op, rhs, l_integral, r_integral) is None,
        negate_outcome(c, expr, expr_is_constant, l_integral) is None,
{
}

} // verus!
