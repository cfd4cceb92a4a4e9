use vstd::prelude::*;

verus! {

/// A source span, by its byte positions.
#[derive(Debug, Clone, Copy, PartialEq, Eq, Structural)]
pub struct Span {
    pub lo: u32,
    pub hi: u32,
}

/// `outer` contains `inner`.
pub open spec fn span_contains(outer: Span, inner: Span) -> bool {
    outer.lo <= inner.lo && inner.hi <= outer.hi
}

/// Whether `outer` contains `inner`.
pub fn contains(outer: Span, inner: Span) -> (r: bool)
    ensures
        r == span_contains(outer, inner),
{
    outer.lo <= inner.lo && inner.hi <= outer.hi
}

/// The binary operators of the source language.
#[derive(Debug, Clone, Copy, PartialEq, Eq, Structural)]
pub enum BinOpKind {
    Add,
    Sub,
    Mul,
    Div,
    Rem,
    And,
    Or,
    BitXor,
    BitAnd,
    BitOr,
    Shl,
    Shr,
    Eq,
    Lt,
    Le,
    Ne,
    Ge,
    Gt,
}

/// The text of a binary operator.
pub open spec fn binop_text(op: BinOpKind) -> Seq<char> {
    match op {
        BinOpKind::Add => "+"@,
        BinOpKind::Sub => "-"@,
        BinOpKind::Mul => "*"@,
        BinOpKind::Div => "/"@,
        BinOpKind::Rem => "%"@,
        BinOpKind::And => "&&"@,
        BinOpKind::Or => "||"@,
        BinOpKind::BitXor => "^"@,
        BinOpKind::BitAnd => "&"@,
        BinOpKind::BitOr => "|"@,
        BinOpKind::Shl => "<<"@,
        BinOpKind::Shr => ">>"@,
        BinOpKind::Eq => "=="@,
        BinOpKind::Lt => "<"@,
        BinOpKind::Le => "<="@,
        BinOpKind::Ne => "!="@,
        BinOpKind::Ge => ">="@,
        BinOpKind::Gt => ">"@,
    }
}

impl BinOpKind {
    /// The text of the operator, as the source writes it.
    pub fn as_str(&self) -> (r: &'static str)
        ensures
            r@ == binop_text(*self),
    {
        match self {
            BinOpKind::Add => "+",
            BinOpKind::Sub => "-",
            BinOpKind::Mul => "*",
            BinOpKind::Div => "/",
            BinOpKind::Rem => "%",
            BinOpKind::And => "&&",
            BinOpKind::Or => "||",
            BinOpKind::BitXor => "^",
            BinOpKind::BitAnd => "&",
            BinOpKind::BitOr => "|",
            BinOpKind::Shl => "<<",
            BinOpKind::Shr => ">>",
            BinOpKind::Eq => "==",
            BinOpKind::Lt => "<",
            BinOpKind::Le => "<=",
            BinOpKind::Ne => "!=",
            BinOpKind::Ge => ">=",
            BinOpKind::Gt => ">",
        }
    }
}

/// The unary operators of the source language.
#[derive(Debug, Clone, Copy, PartialEq, Eq, Structural)]
pub enum UnOp {
    Deref,
    Not,
    Neg,
}

/// A literal.
#[derive(Debug, Clone, Copy, PartialEq, Eq, Structural)]
pub enum LitKind {
    Int(u128),
    /// A literal of another kind; the number stands for its kind and value, equal numbers
    /// for equal literals.
    Other(u64),
}

/// What a resolved path refers to.
#[derive(Debug, Clone, Copy, PartialEq, Eq, Structural)]
pub enum Res {
    /// A local binding.
    Local(u64),
    /// A definition.
    Def(u64),
    /// The `Self` type alias.
    SelfTyAlias,
    /// Any other resolution; the number stands for it, equal numbers for equal resolutions.
    Other(u64),
}

/// A segment of a path.
#[derive(Debug, Clone, PartialEq, Eq)]
pub struct PathSegment {
    pub name: String,
    pub hir_id: u64,
}

/// A path in an expression.
#[derive(Debug, Clone, PartialEq, Eq)]
pub enum QPath {
    /// A resolved path, with its resolution and segments; `has_qualifier` says whether it has
    /// a `<T as Trait>` qualifier.
    Resolved { res: Res, segments: Vec<PathSegment>, has_qualifier: bool },
    /// A type-relative path `<Type>::segment`; `ty_is_path` says whether the type is a path,
    /// whose node is `ty_hir_id`.
    TypeRelative { ty_is_path: bool, ty_hir_id: u64, segment: String },
    /// A path to a language item.
    LangItem,
}

/// An expression of a function body.
pub struct Expr {
    pub hir_id: u64,
    pub span: Span,
    pub kind: ExprKind,
}

/// The kinds of expression that the detectors tell apart; every other kind keeps its
/// subexpressions, in the order the compiler's walk visits them.
pub enum ExprKind {
    Lit(LitKind),
    Path(QPath),
    Binary(BinOpKind, Box<Expr>, Box<Expr>),
    AssignOp(BinOpKind, Box<Expr>, Box<Expr>),
    Assign(Box<Expr>, Box<Expr>),
    Unary(UnOp, Box<Expr>),
    AddrOf(bool, Box<Expr>),
    /// A method call; `call_span` covers the method's name and arguments.
    MethodCall { method: String, receiver: Box<Expr>, args: Vec<Expr>, call_span: Span },
    Call { callee: Box<Expr>, args: Vec<Expr> },
    Block { stmts: Vec<Stmt>, tail: Option<Box<Expr>> },
    If { cond: Box<Expr>, then: Box<Expr>, els: Option<Box<Expr>> },
    Let { pat_hir_id: u64, init: Box<Expr> },
    DropTemps(Box<Expr>),
    /// A cast of an expression to the type whose node is the `u64`.
    Cast(Box<Expr>, u64),
    /// A closure; its body is a nested body, which a walk does not enter.
    Closure(Box<Expr>),
    Other(Vec<Expr>),
}

/// A statement of a block.
pub enum Stmt {
    /// A `let`; `binding` is the name when the pattern is a plain binding.
    Let { pat_hir_id: u64, binding: Option<String>, init: Option<Expr> },
    /// An expression statement.
    Expr(Expr),
    /// A nested item.
    Item,
}

/// The identifier an expression stands for: the local a path names, the type of a
/// type-relative path, a language-item path or an integer literal itself.
pub open spec fn spec_get_expr_hir_id_opt(e: Expr) -> Option<u64> {
    match e.kind {
        ExprKind::Path(q) => match q {
            QPath::Resolved { res, .. } => match res {
                Res::Local(id) => Some(id),
                _ => None,
            },
            QPath::TypeRelative { ty_is_path, ty_hir_id, .. } => if ty_is_path { Some(ty_hir_id) } else { None },
            QPath::LangItem => Some(e.hir_id),
        },
        ExprKind::Lit(LitKind::Int(_)) => Some(e.hir_id),
        _ => None,
    }
}

/// The identifier an expression stands for, if any.
pub fn get_expr_hir_id_opt(e: &Expr) -> (r: Option<u64>)
    ensures
        r == spec_get_expr_hir_id_opt(*e),
{
    match &e.kind {
        ExprKind::Path(q) => match q {
            QPath::Resolved { res, .. } => match res {
                Res::Local(id) => Some(*id),
                _ => None,
            },
            QPath::TypeRelative { ty_is_path, ty_hir_id, .. } => if *ty_is_path { Some(*ty_hir_id) } else { None },
            QPath::LangItem => Some(e.hir_id),
        },
        ExprKind::Lit(LitKind::Int(_)) => Some(e.hir_id),
        _ => None,
    }
}

/// Every method call in `e`, its parts included (closure bodies not), has its identifier in
/// `ids`.
pub open spec fn method_calls_in(e: Expr, ids: Set<u64>) -> bool
    decreases e, 1nat,
{
    &&& (e.kind is MethodCall ==> ids.contains(e.hir_id))
    &&& method_call_parts_in(e, ids)
}

/// Every part of `e` satisfies [`method_calls_in`].
pub open spec fn method_call_parts_in(e: Expr, ids: Set<u64>) -> bool
    decreases e, 0nat,
{
    match e.kind {
        ExprKind::Lit(_) => true,
        ExprKind::Path(_) => true,
        ExprKind::Binary(_, l, r) => method_calls_in(*l, ids) && method_calls_in(*r, ids),
        ExprKind::AssignOp(_, l, r) => method_calls_in(*l, ids) && method_calls_in(*r, ids),
        ExprKind::Assign(l, r) => method_calls_in(*l, ids) && method_calls_in(*r, ids),
        ExprKind::Unary(_, x) => method_calls_in(*x, ids),
        ExprKind::AddrOf(_, x) => method_calls_in(*x, ids),
        ExprKind::DropTemps(x) => method_calls_in(*x, ids),
        ExprKind::Cast(x, _) => method_calls_in(*x, ids),
        ExprKind::MethodCall { receiver, args, .. } => method_calls_in(*receiver, ids) && method_calls_in_seq(args@, ids),
        ExprKind::Call { callee, args } => method_calls_in(*callee, ids) && method_calls_in_seq(args@, ids),
        ExprKind::Block { stmts, tail } => method_calls_in_stmts(stmts@, ids) && match tail {
            Some(t) => method_calls_in(*t, ids),
            None => true,
        },
        ExprKind::If { cond, then, els } => method_calls_in(*cond, ids) && method_calls_in(*then, ids) && match els {
            Some(x) => method_calls_in(*x, ids),
            None => true,
        },
        ExprKind::Let { init, .. } => method_calls_in(*init, ids),
        ExprKind::Closure(_) => true,
        ExprKind::Other(cs) => method_calls_in_seq(cs@, ids),
    }
}

/// Every expression of the sequence satisfies [`method_calls_in`].
pub open spec fn method_calls_in_seq(es: Seq<Expr>, ids: Set<u64>) -> bool
    decreases es, 0nat,
{
    es.len() == 0 || (method_calls_in_seq(es.subrange(0, es.len() - 1), ids) && method_calls_in(es[es.len() - 1], ids))
}

/// Every initializer and expression statement satisfies [`method_calls_in`].
pub open spec fn method_calls_in_stmts(ss: Seq<Stmt>, ids: Set<u64>) -> bool
    decreases ss, 0nat,
{
    ss.len() == 0 || (method_calls_in_stmts(ss.subrange(0, ss.len() - 1), ids) && match ss[ss.len() - 1] {
        Stmt::Let { init, .. } => match init {
            Some(i) => method_calls_in(i, ids),
            None => true,
        },
        Stmt::Expr(x) => method_calls_in(x, ids),
        Stmt::Item => true,
    })
}

/// A prefix of a sequence that satisfies [`method_calls_in_seq`] does, and so does each
/// element.
pub proof fn lemma_method_calls_in_seq(es: Seq<Expr>, ids: Set<u64>, i: int)
    requires
        method_calls_in_seq(es, ids),
        0 <= i <= es.len(),
    ensures
        method_calls_in_seq(es.subrange(0, i), ids),
        i < es.len() ==> method_calls_in(es[i], ids),
    decreases es.len(),
{
    if i < es.len() {
        let p = es.subrange(0, es.len() - 1);
        assert(p.subrange(0, i) =~= es.subrange(0, i));
        if i < es.len() - 1 {
            lemma_method_calls_in_seq(p, ids, i);
            assert(p[i] == es[i]);
        } else {
            assert(p =~= es.subrange(0, i));
        }
    } else {
        assert(es.subrange(0, i) =~= es);
    }
}

/// A prefix of a block that satisfies [`method_calls_in_stmts`] does.
pub proof fn lemma_method_calls_in_stmts(ss: Seq<Stmt>, ids: Set<u64>, i: int)
    requires
        method_calls_in_stmts(ss, ids),
        0 <= i <= ss.len(),
    ensures
        method_calls_in_stmts(ss.subrange(0, i), ids),
        i < ss.len() ==> method_calls_in_stmts(ss.subrange(0, i + 1), ids),
    decreases ss.len(),
{
    if i < ss.len() {
        let p = ss.subrange(0, ss.len() - 1);
        assert(p.subrange(0, i) =~= ss.subrange(0, i));
        if i < ss.len() - 1 {
            lemma_method_calls_in_stmts(p, ids, i);
            assert(p.subrange(0, i + 1) =~= ss.subrange(0, i + 1));
        } else {
            assert(p =~= ss.subrange(0, i));
            assert(ss.subrange(0, i + 1) =~= ss);
        }
    } else {
        assert(ss.subrange(0, i) =~= ss);
    }
}

/// `x` is `e` or one of the expressions that the compiler's walk of `e` visits: every
/// subexpression, the initializers and expressions of a block's statements included; the
/// body of a closure is a nested body, which the walk does not enter.
pub open spec fn visited_in(x: Expr, e: Expr) -> bool
    decreases e, 1nat,
{
    x == e || visited_in_parts(x, e)
}

/// `x` is one of the expressions that the compiler's walk of the parts of `e` visits.
pub open spec fn visited_in_parts(x: Expr, e: Expr) -> bool
    decreases e, 0nat,
{
    match e.kind {
        ExprKind::Lit(_) => false,
        ExprKind::Path(_) => false,
        ExprKind::Binary(_, l, r) => visited_in(x, *l) || visited_in(x, *r),
        ExprKind::AssignOp(_, l, r) => visited_in(x, *l) || visited_in(x, *r),
        ExprKind::Assign(l, r) => visited_in(x, *l) || visited_in(x, *r),
        ExprKind::Unary(_, y) => visited_in(x, *y),
        ExprKind::AddrOf(_, y) => visited_in(x, *y),
        ExprKind::DropTemps(y) => visited_in(x, *y),
        ExprKind::Cast(y, _) => visited_in(x, *y),
        ExprKind::MethodCall { receiver, args, .. } => visited_in(x, *receiver) || visited_in_seq(x, args@),
        ExprKind::Call { callee, args } => visited_in(x, *callee) || visited_in_seq(x, args@),
        ExprKind::Block { stmts, tail } => visited_in_stmts(x, stmts@) || match tail {
            Some(t) => visited_in(x, *t),
            None => false,
        },
        ExprKind::If { cond, then, els } => visited_in(x, *cond) || visited_in(x, *then) || match els {
            Some(y) => visited_in(x, *y),
            None => false,
        },
        ExprKind::Let { init, .. } => visited_in(x, *init),
        ExprKind::Closure(_) => false,
        ExprKind::Other(cs) => visited_in_seq(x, cs@),
    }
}

/// `x` is visited in one of the expressions `es`.
pub open spec fn visited_in_seq(x: Expr, es: Seq<Expr>) -> bool
    decreases es, 0nat,
{
    if es.len() == 0 {
        false
    } else {
        visited_in_seq(x, es.subrange(0, es.len() - 1)) || visited_in(x, es[es.len() - 1])
    }
}

/// `x` is visited in the initializer or the expression of one of the statements `ss`.
pub open spec fn visited_in_stmts(x: Expr, ss: Seq<Stmt>) -> bool
    decreases ss, 0nat,
{
    if ss.len() == 0 {
        false
    } else {
        visited_in_stmts(x, ss.subrange(0, ss.len() - 1)) || match ss[ss.len() - 1] {
            Stmt::Let { init, .. } => match init {
                Some(i) => visited_in(x, i),
                None => false,
            },
            Stmt::Expr(y) => visited_in(x, y),
            Stmt::Item => false,
        }
    }
}

} // verus!
