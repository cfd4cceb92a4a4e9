use vstd::prelude::*;
use crate::hir::Span;

verus! {

/// A place in a MIR body: a local and, standing for its projections, an identifier
/// (`0` when the place has no projection).
#[derive(Debug, Clone, Copy, PartialEq, Eq, Hash, Structural)]
pub struct Place {
    pub local: u32,
    pub projection: u32,
}

/// An operand of a MIR statement or terminator.
#[derive(Debug, Clone, Copy, PartialEq, Eq, Structural)]
pub enum Operand {
    Copy(Place),
    Move(Place),
    /// A constant: for a function item, the function's definition id; for a constant that
    /// evaluates to an integer, its bits.
    Constant(Option<u64>, Option<u128>),
}

/// The binary operators that the analyses tell apart.
#[derive(Debug, Clone, Copy, PartialEq, Eq, Structural)]
pub enum BinOp {
    Div,
    Mul,
    MulUnchecked,
    Other,
}

/// The right-hand side of a MIR assignment.
#[derive(Debug, Clone, Copy, PartialEq, Eq, Structural)]
pub enum Rvalue {
    Ref(Place),
    AddressOf(Place),
    Len(Place),
    CopyForDeref(Place),
    Use(Operand),
    BinaryOp(BinOp, Operand, Operand),
    Other,
}

/// A MIR statement, with the identifier of its source span.
#[derive(Debug, Clone, Copy, PartialEq, Eq, Structural)]
pub enum StatementKind {
    Assign(Place, Rvalue),
    /// `StorageLive`, `StorageDead` or `Nop`: markers that stand for no source operation.
    Marker,
    Other,
}

/// A MIR statement.
#[derive(Debug, Clone, Copy, PartialEq, Eq, Structural)]
pub struct Statement {
    pub kind: StatementKind,
    pub span: Span,
}

/// How a MIR basic block ends. Block targets are indices into the body's blocks.
#[derive(Debug, Clone, PartialEq, Eq)]
pub enum TerminatorKind {
    Call { func: Operand, args: Vec<Operand>, destination: Place, target: Option<usize>, fn_span: Span },
    /// A switch on an integer: `targets[i]` is taken for `values[i]`, the last target for any
    /// other value.
    SwitchInt { discr: Operand, values: Vec<u128>, targets: Vec<usize> },
    Goto { target: usize },
    Drop { target: usize },
    Assert { target: usize },
    Yield { resume: usize, drop: Option<usize> },
    FalseEdge { real_target: usize, imaginary_target: usize },
    FalseUnwind { real_target: usize },
    InlineAsm { targets: Vec<usize> },
    /// Return, unreachable, unwind and the other terminators without a followed target.
    Other,
}

/// A MIR terminator.
#[derive(Debug, Clone, PartialEq, Eq)]
pub struct Terminator {
    pub kind: TerminatorKind,
    pub span: Span,
}

/// A MIR basic block.
#[derive(Debug, Clone, PartialEq, Eq)]
pub struct BasicBlockData {
    pub statements: Vec<Statement>,
    pub terminator: Option<Terminator>,
}

/// Every block target named by a terminator.
pub open spec fn all_targets(k: TerminatorKind) -> Seq<usize> {
    match k {
        TerminatorKind::Call { target, .. } => match target {
            Some(t) => seq![t],
            None => seq![],
        },
        TerminatorKind::SwitchInt { targets, .. } => targets@,
        TerminatorKind::Goto { target } => seq![target],
        TerminatorKind::Drop { target } => seq![target],
        TerminatorKind::Assert { target } => seq![target],
        TerminatorKind::Yield { resume, drop } => match drop {
            Some(d) => seq![resume, d],
            None => seq![resume],
        },
        TerminatorKind::FalseEdge { real_target, imaginary_target } => seq![real_target, imaginary_target],
        TerminatorKind::FalseUnwind { real_target } => seq![real_target],
        TerminatorKind::InlineAsm { targets } => targets@,
        TerminatorKind::Other => seq![],
    }
}

/// Every target of every block is a block of the body.
pub open spec fn well_formed(bbs: Seq<BasicBlockData>) -> bool {
    forall|b: int, j: int|
        #![trigger all_targets(bbs[b].terminator->0.kind)[j]]
        0 <= b < bbs.len() && bbs[b].terminator is Some && 0 <= j < all_targets(bbs[b].terminator->0.kind).len()
            ==> all_targets(bbs[b].terminator->0.kind)[j] < bbs.len()
}

/// The first place in `tainted` whose local is that of `p`, if any.
pub open spec fn local_tainted(tainted: Seq<Place>, p: Place) -> bool {
    exists|i: int| 0 <= i < tainted.len() && tainted[i].local == p.local
}

/// Whether some tainted place has the same local as `p`.
pub fn has_tainted_local(tainted: &Vec<Place>, p: Place) -> (r: bool)
    ensures
        r == local_tainted(tainted@, p),
{
    let mut i: usize = 0;
    while i < tainted.len()
        invariant
            i <= tainted@.len(),
            forall|k: int| 0 <= k < i ==> tainted@[k].local != p.local,
        decreases tainted@.len() - i,
    {
        if tainted[i].local == p.local {
            return true;
        }
        i = i + 1;
    }
    false
}

/// Whether `tainted` holds the place `p` itself.
pub fn has_tainted_place(tainted: &Vec<Place>, p: Place) -> (r: bool)
    ensures
        r == tainted@.contains(p),
{
    let mut i: usize = 0;
    while i < tainted.len()
        invariant
            i <= tainted@.len(),
            forall|k: int| 0 <= k < i ==> tainted@[k] != p,
        decreases tainted@.len() - i,
    {
        if tainted[i] == p {
            assert(tainted@[i as int] == p);
            return true;
        }
        i = i + 1;
    }
    false
}

} // verus!
