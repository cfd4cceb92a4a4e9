use vstd::prelude::*;
use crate::hir::{Span, Expr, ExprKind, QPath};
use crate::mir::{Place, Operand, Rvalue, StatementKind, Statement, TerminatorKind, BasicBlockData, has_tainted_place};

verus! {

/// The detector for `set_code_hash` calls made without checking the caller.
#[derive(Debug, Clone, Copy, PartialEq, Eq, Structural)]
pub struct SetCodeHash {}

impl SetCodeHash {
    /// The detector.
    pub fn new() -> (r: SetCodeHash)
        ensures
            r == (SetCodeHash {}),
    {
        SetCodeHash {}
    }
}

/// The blocks whose terminator calls the caller query and those whose terminator calls
/// `set_code_hash`.
pub struct CallersAndTerminates {
    pub callers: Vec<usize>,
    pub terminates: Vec<usize>,
}

/// The definition id of the function that block `b`'s terminator calls, if it calls a
/// function item.
pub open spec fn called_def(bbs: Seq<BasicBlockData>, b: int) -> Option<u64> {
    match bbs[b].terminator {
        Some(t) => match t.kind {
            TerminatorKind::Call { func: Operand::Constant(Some(d), _), .. } => Some(d),
            _ => None,
        },
        None => None,
    }
}

/// The blocks, in order, among the first `n`, whose terminator calls `def` (none when `def` is `None`).
pub open spec fn blocks_calling(bbs: Seq<BasicBlockData>, def: Option<u64>, n: int) -> Seq<usize>
    decreases n,
{
    if n <= 0 {
        seq![]
    } else {
        let rest = blocks_calling(bbs, def, n - 1);
        if def is Some && called_def(bbs, n - 1) == def { rest.push((n - 1) as usize) } else { rest }
    }
}

fn called_def_exec(data: &BasicBlockData) -> (r: Option<u64>)
    ensures
        r == (match data.terminator {
            Some(t) => match t.kind {
                TerminatorKind::Call { func: Operand::Constant(Some(d), _), .. } => Some(d),
                _ => None,
            },
            None => None,
        }),
{
    match &data.terminator {
        Some(t) => match &t.kind {
            TerminatorKind::Call { func: Operand::Constant(Some(d), _), .. } => Some(*d),
            _ => None,
        },
        None => None,
    }
}

/// Finds the blocks that call the caller query and those that call `set_code_hash`.
pub fn find_caller_and_terminate_in_mir(bbs: &Vec<BasicBlockData>, caller_def_id: Option<u64>, terminate_def_id: Option<u64>) -> (r: CallersAndTerminates)
    ensures
        r.callers@ == blocks_calling(bbs@, caller_def_id, bbs@.len() as int),
        r.terminates@ == blocks_calling(bbs@, terminate_def_id, bbs@.len() as int),
{
    let mut callers: Vec<usize> = Vec::new();
    let mut terminates: Vec<usize> = Vec::new();
    let mut bb: usize = 0;
    while bb < bbs.len()
        invariant
            bb <= bbs@.len(),
            callers@ == blocks_calling(bbs@, caller_def_id, bb as int),
            terminates@ == blocks_calling(bbs@, terminate_def_id, bb as int),
        decreases bbs@.len() - bb,
    {
        let d = called_def_exec(&bbs[bb]);
        if let Some(def) = d {
            if let Some(c) = caller_def_id {
                if c == def {
                    callers.push(bb);
                }
            }
            if let Some(t) = terminate_def_id {
                if t == def {
                    terminates.push(bb);
                }
            }
        }
        bb = bb + 1;
    }
    CallersAndTerminates { callers, terminates }
}

/// The block targets that the caller-check traversal follows.
pub open spec fn followed_targets(k: TerminatorKind) -> Seq<usize> {
    match k {
        TerminatorKind::SwitchInt { targets, .. } => targets@,
        TerminatorKind::Call { target, .. } => match target {
            Some(t) => seq![t],
            None => seq![],
        },
        TerminatorKind::Assert { target } => seq![target],
        TerminatorKind::Goto { target } => seq![target],
        TerminatorKind::Drop { target } => seq![target],
        TerminatorKind::Yield { resume, .. } => seq![resume],
        TerminatorKind::FalseEdge { real_target, .. } => seq![real_target],
        TerminatorKind::FalseUnwind { real_target } => seq![real_target],
        TerminatorKind::InlineAsm { targets } => targets@,
        TerminatorKind::Other => seq![],
    }
}

/// The blocks `live` are closed under followed edges, every followed target of one of them is
/// a block, and `rank` decreases along every such edge: the followed edges among them form no
/// cycle.
pub open spec fn ranked(bbs: Seq<BasicBlockData>, rank: Seq<nat>, live: Set<int>) -> bool {
    &&& rank.len() == bbs.len()
    &&& forall|b: int, j: int|
        #![trigger followed_targets(bbs[b].terminator->0.kind)[j]]
        0 <= b < bbs.len() && live.contains(b) && bbs[b].terminator is Some
            && 0 <= j < followed_targets(bbs[b].terminator->0.kind).len() ==> {
            let t = followed_targets(bbs[b].terminator->0.kind)[j];
            t < bbs.len() && live.contains(t as int) && rank[t as int] < rank[b]
        }
}

/// The traversal from block `start` terminates: the followed edges among the blocks it
/// reaches form no cycle.
pub open spec fn terminates(bbs: Seq<BasicBlockData>, start: int) -> bool {
    exists|rank: Seq<nat>, live: Set<int>| live.contains(start) && ranked(bbs, rank, live)
}

/// A ranking, and the blocks it ranks, witnessing that the traversal from `start`
/// terminates.
pub open spec fn some_rank(bbs: Seq<BasicBlockData>, start: int) -> (Seq<nat>, Set<int>) {
    choose|rank: Seq<nat>, live: Set<int>| live.contains(start) && ranked(bbs, rank, live)
}

/// The effect of a statement: copies and borrows of a tainted place taint their destination.
pub open spec fn sch_stmt_step(t: Seq<Place>, s: Statement) -> Seq<Place> {
    match s.kind {
        StatementKind::Assign(dest, rv) => match rv {
            Rvalue::Ref(p) | Rvalue::AddressOf(p) | Rvalue::Len(p) | Rvalue::CopyForDeref(p)
            | Rvalue::Use(Operand::Copy(p)) | Rvalue::Use(Operand::Move(p)) =>
                if t.contains(p) { t.push(dest) } else { t },
            _ => t,
        },
        StatementKind::Marker | StatementKind::Other => t,
    }
}

/// The effect of a block's statements, in order.
pub open spec fn sch_stmts_fold(stmts: Seq<Statement>, t: Seq<Place>) -> Seq<Place>
    decreases stmts.len(),
{
    if stmts.len() == 0 {
        t
    } else {
        sch_stmt_step(sch_stmts_fold(stmts.drop_last(), t), stmts.last())
    }
}

/// The effect of a call's arguments: a tainted argument taints the destination.
pub open spec fn sch_args_fold(args: Seq<Operand>, t: Seq<Place>, dest: Place) -> Seq<Place>
    decreases args.len(),
{
    if args.len() == 0 {
        t
    } else {
        let t0 = sch_args_fold(args.drop_last(), t, dest);
        match args.last() {
            Operand::Copy(p) | Operand::Move(p) => if t0.contains(p) { t0.push(dest) } else { t0 },
            Operand::Constant(_, _) => t0,
        }
    }
}

/// `dest` pushed once for each occurrence of `bb` among the first `n` caller blocks.
pub open spec fn push_per_occurrence(t: Seq<Place>, blocks: Seq<usize>, bb: usize, dest: Place, n: int) -> Seq<Place>
    decreases n,
{
    if n <= 0 {
        t
    } else {
        let t0 = push_per_occurrence(t, blocks, bb, dest, n - 1);
        if blocks[n - 1] == bb { t0.push(dest) } else { t0 }
    }
}

/// `(dest, span)` pushed once for each occurrence of `bb` among the first `n` terminate blocks.
pub open spec fn report_per_occurrence(r: Seq<(Place, Span)>, blocks: Seq<usize>, bb: usize, item: (Place, Span), n: int) -> Seq<(Place, Span)>
    decreases n,
{
    if n <= 0 {
        r
    } else {
        let r0 = report_per_occurrence(r, blocks, bb, item, n - 1);
        if blocks[n - 1] == bb { r0.push(item) } else { r0 }
    }
}

/// The `set_code_hash` calls reached from `bb` without passing a branch on a value derived
/// from the caller, each with its destination; and the tainted places afterwards.
pub open spec fn sch_nav(
    bbs: Seq<BasicBlockData>,
    cat: (Seq<usize>, Seq<usize>),
    bb: usize,
    after: bool,
    t: Seq<Place>,
    d: nat,
) -> (Seq<(Place, Span)>, Seq<Place>)
    decreases d, 0nat,
{
    if d == 0 {
        (seq![], t)
    } else {
        match bbs[bb as int].terminator {
            None => (seq![], t),
            Some(term) => {
                let t1 = sch_stmts_fold(bbs[bb as int].statements@, t);
                match term.kind {
                    TerminatorKind::SwitchInt { discr, targets, .. } => {
                        let compared = match discr {
                            Operand::Copy(p) | Operand::Move(p) => after || t1.contains(p),
                            Operand::Constant(_, _) => after,
                        };
                        sch_nav_seq(bbs, cat, targets@, compared, seq![], t1, (d - 1) as nat)
                    },
                    TerminatorKind::Call { args, destination, target, fn_span, .. } => {
                        let t2 = sch_args_fold(args@, t1, destination);
                        let t3 = push_per_occurrence(t2, cat.0, bb, destination, cat.0.len() as int);
                        let r = report_per_occurrence(seq![], cat.1, bb, (destination, fn_span), if after { 0 } else { cat.1.len() as int });
                        match target {
                            Some(tg) => sch_nav_seq(bbs, cat, seq![tg], after, r, t3, (d - 1) as nat),
                            None => (r, t3),
                        }
                    },
                    _ => sch_nav_seq(bbs, cat, followed_targets(term.kind), after, seq![], t1, (d - 1) as nat),
                }
            },
        }
    }
}

/// The traversals from each of `ts`, in order, appending their reports to `r`.
pub open spec fn sch_nav_seq(
    bbs: Seq<BasicBlockData>,
    cat: (Seq<usize>, Seq<usize>),
    ts: Seq<usize>,
    after: bool,
    r: Seq<(Place, Span)>,
    t: Seq<Place>,
    d: nat,
) -> (Seq<(Place, Span)>, Seq<Place>)
    decreases d, ts.len() + 1,
{
    if ts.len() == 0 {
        (r, t)
    } else {
        let (r0, t0) = sch_nav(bbs, cat, ts[0], after, t, d);
        sch_nav_seq(bbs, cat, ts.subrange(1, ts.len() as int), after, r + r0, t0, d)
    }
}

fn sch_apply_statements(stmts: &Vec<Statement>, tainted: &mut Vec<Place>)
    ensures
        final(tainted)@ == sch_stmts_fold(stmts@, old(tainted)@),
{
    let ghost t0 = tainted@;
    let mut i: usize = 0;
    while i < stmts.len()
        invariant
            i <= stmts@.len(),
            tainted@ == sch_stmts_fold(stmts@.subrange(0, i as int), t0),
        decreases stmts@.len() - i,
    {
        assert(stmts@.subrange(0, i + 1).drop_last() =~= stmts@.subrange(0, i as int));
        if let StatementKind::Assign(dest, rv) = stmts[i].kind {
            match rv {
                Rvalue::Ref(p) | Rvalue::AddressOf(p) | Rvalue::Len(p) | Rvalue::CopyForDeref(p)
                | Rvalue::Use(Operand::Copy(p)) | Rvalue::Use(Operand::Move(p)) => {
                    if has_tainted_place(tainted, p) {
                        tainted.push(dest);
                    }
                },
                _ => {},
            }
        }
        i = i + 1;
    }
    assert(stmts@.subrange(0, stmts@.len() as int) =~= stmts@);
}

fn sch_apply_args(args: &Vec<Operand>, dest: Place, tainted: &mut Vec<Place>)
    ensures
        final(tainted)@ == sch_args_fold(args@, old(tainted)@, dest),
{
    let ghost t0 = tainted@;
    let mut i: usize = 0;
    while i < args.len()
        invariant
            i <= args@.len(),
            tainted@ == sch_args_fold(args@.subrange(0, i as int), t0, dest),
        decreases args@.len() - i,
    {
        assert(args@.subrange(0, i + 1).drop_last() =~= args@.subrange(0, i as int));
        match args[i] {
            Operand::Copy(p) | Operand::Move(p) => {
                if has_tainted_place(tainted, p) {
                    tainted.push(dest);
                }
            },
            Operand::Constant(_, _) => {},
        }
        i = i + 1;
    }
    assert(args@.subrange(0, args@.len() as int) =~= args@);
}

fn followed_targets_exec(k: &TerminatorKind) -> (r: Vec<usize>)
    ensures
        r@ == followed_targets(*k),
{
    match k {
        TerminatorKind::SwitchInt { targets, .. } => targets.clone(),
        TerminatorKind::Call { target, .. } => match target {
            Some(t) => vec![*t],
            None => Vec::new(),
        },
        TerminatorKind::Assert { target } => vec![*target],
        TerminatorKind::Goto { target } => vec![*target],
        TerminatorKind::Drop { target } => vec![*target],
        TerminatorKind::Yield { resume, .. } => vec![*resume],
        TerminatorKind::FalseEdge { real_target, .. } => vec![*real_target],
        TerminatorKind::FalseUnwind { real_target } => vec![*real_target],
        TerminatorKind::InlineAsm { targets } => targets.clone(),
        TerminatorKind::Other => Vec::new(),
    }
}

fn sch_rec_seq(
    bbs: &Vec<BasicBlockData>,
    ts: &Vec<usize>,
    cat: &CallersAndTerminates,
    after: bool,
    ret: &mut Vec<(Place, Span)>,
    tainted: &mut Vec<Place>,
    Ghost(rank): Ghost<Seq<nat>>,
    Ghost(live): Ghost<Set<int>>,
    Ghost(d): Ghost<nat>,
)
    requires
        ranked(bbs@, rank, live),
        forall|j: int| 0 <= j < ts@.len() ==> #[trigger] ts@[j] < bbs@.len() && live.contains(ts@[j] as int) && rank[ts@[j] as int] < d,
    ensures
        (final(ret)@, final(tainted)@) == sch_nav_seq(bbs@, (cat.callers@, cat.terminates@), ts@, after, old(ret)@, old(tainted)@, d),
    decreases d, 1nat,
{
    let ghost goal = sch_nav_seq(bbs@, (cat.callers@, cat.terminates@), ts@, after, ret@, tainted@, d);
    let mut i: usize = 0;
    assert(ts@.subrange(0, ts@.len() as int) =~= ts@);
    while i < ts.len()
        invariant
            i <= ts@.len(),
            ranked(bbs@, rank, live),
            forall|j: int| 0 <= j < ts@.len() ==> #[trigger] ts@[j] < bbs@.len() && live.contains(ts@[j] as int) && rank[ts@[j] as int] < d,
            goal == sch_nav_seq(bbs@, (cat.callers@, cat.terminates@), ts@.subrange(i as int, ts@.len() as int), after, ret@, tainted@, d),
        decreases ts@.len() - i,
    {
        let ghost rest = ts@.subrange(i as int, ts@.len() as int);
        assert(rest.subrange(1, rest.len() as int) =~= ts@.subrange(i + 1, ts@.len() as int));
        assert(ts@[i as int] < bbs@.len() && live.contains(ts@[i as int] as int) && rank[ts@[i as int] as int] < d);
        let mut sub = sch_rec(bbs, ts[i], cat, after, tainted, Ghost(rank), Ghost(live), Ghost(d));
        ret.append(&mut sub);
        i = i + 1;
    }
}

fn sch_rec(
    bbs: &Vec<BasicBlockData>,
    bb: usize,
    cat: &CallersAndTerminates,
    after: bool,
    tainted: &mut Vec<Place>,
    Ghost(rank): Ghost<Seq<nat>>,
    Ghost(live): Ghost<Set<int>>,
    Ghost(d): Ghost<nat>,
) -> (r: Vec<(Place, Span)>)
    requires
        ranked(bbs@, rank, live),
        bb < bbs@.len(),
        live.contains(bb as int),
        rank[bb as int] < d,
    ensures
        (r@, final(tainted)@) == sch_nav(bbs@, (cat.callers@, cat.terminates@), bb, after, old(tainted)@, d),
    decreases d, 0nat,
{
    let mut ret: Vec<(Place, Span)> = Vec::new();
    let data = &bbs[bb];
    let term = match &data.terminator {
        None => return ret,
        Some(t) => t,
    };
    let ghost t0 = tainted@;
    sch_apply_statements(&data.statements, tainted);
    assert(bbs@[bb as int].terminator == Some(*term));
    assert(forall|j: int| 0 <= j < followed_targets(term.kind).len() ==>
        #[trigger] followed_targets(term.kind)[j] < bbs@.len() && live.contains(followed_targets(term.kind)[j] as int)
            && rank[followed_targets(term.kind)[j] as int] < d - 1) by {
        assert forall|j: int| 0 <= j < followed_targets(term.kind).len() implies
            #[trigger] followed_targets(term.kind)[j] < bbs@.len() && live.contains(followed_targets(term.kind)[j] as int)
                && rank[followed_targets(term.kind)[j] as int] < d - 1 by {
            assert(followed_targets(bbs@[bb as int].terminator->0.kind)[j] == followed_targets(term.kind)[j]);
        }
    }
    match &term.kind {
        TerminatorKind::SwitchInt { discr, targets, .. } => {
            let compared = match discr {
                Operand::Copy(p) | Operand::Move(p) => after || has_tainted_place(tainted, *p),
                Operand::Constant(_, _) => after,
            };
            sch_rec_seq(bbs, targets, cat, compared, &mut ret, tainted, Ghost(rank), Ghost(live), Ghost((d - 1) as nat));
            assert((ret@, tainted@) == sch_nav(bbs@, (cat.callers@, cat.terminates@), bb, after, t0, d));
        },
        TerminatorKind::Call { args, destination, target, fn_span, .. } => {
            sch_apply_args(args, *destination, tainted);
            let ghost t2 = tainted@;
            let mut i: usize = 0;
            while i < cat.callers.len()
                invariant
                    i <= cat.callers@.len(),
                    tainted@ == push_per_occurrence(t2, cat.callers@, bb, *destination, i as int),
                decreases cat.callers@.len() - i,
            {
                if cat.callers[i] == bb {
                    tainted.push(*destination);
                }
                i = i + 1;
            }
            let mut j: usize = 0;
            while j < cat.terminates.len()
                invariant
                    j <= cat.terminates@.len(),
                    ret@ == report_per_occurrence(seq![], cat.terminates@, bb, (*destination, *fn_span), if after { 0 } else { j as int }),
                decreases cat.terminates@.len() - j,
            {
                if cat.terminates[j] == bb && !after {
                    ret.push((*destination, *fn_span));
                }
                j = j + 1;
            }
            if let Some(tg) = target {
                let ts = vec![*tg];
                assert(ts@ =~= seq![*tg]);
                assert(ts@[0] == followed_targets(term.kind)[0]);
                sch_rec_seq(bbs, &ts, cat, after, &mut ret, tainted, Ghost(rank), Ghost(live), Ghost((d - 1) as nat));
            }
            assert((ret@, tainted@) == sch_nav(bbs@, (cat.callers@, cat.terminates@), bb, after, t0, d));
        },
        TerminatorKind::Other => {
            assert((ret@, tainted@) == sch_nav(bbs@, (cat.callers@, cat.terminates@), bb, after, t0, d));
        },
        _ => {
            let ts = followed_targets_exec(&term.kind);
            sch_rec_seq(bbs, &ts, cat, after, &mut ret, tainted, Ghost(rank), Ghost(live), Ghost((d - 1) as nat));
            assert((ret@, tainted@) == sch_nav(bbs@, (cat.callers@, cat.terminates@), bb, after, t0, d));
        },
    }
    ret
}

/// The `set_code_hash` calls, with their destinations and spans, that are reached from
/// block `bb` without first branching on a value derived from the caller query.
/// `after_comparison` says whether such a branch was already passed; `tainted_places`
/// holds the places derived from the caller query and grows as they are found.
pub fn navigate_trough_basicblocks(
    bbs: &Vec<BasicBlockData>,
    bb: usize,
    caller_and_terminate: &CallersAndTerminates,
    after_comparison: bool,
    tainted_places: &mut Vec<Place>,
) -> (r: Vec<(Place, Span)>)
    requires
        bb < bbs@.len(),
        terminates(bbs@, bb as int),
    ensures
        (r@, final(tainted_places)@) == sch_nav(
            bbs@,
            (caller_and_terminate.callers@, caller_and_terminate.terminates@),
            bb,
            after_comparison,
            old(tainted_places)@,
            some_rank(bbs@, bb as int).0[bb as int] + 1,
        ),
{
    let ghost (rank, live) = some_rank(bbs@, bb as int);
    let ghost d = rank[bb as int] + 1;
    sch_rec(bbs, bb, caller_and_terminate, after_comparison, tainted_places, Ghost(rank), Ghost(live), Ghost(d))
}

/// The span of the call that ends block `b`, or an empty span when it does not end in a
/// call.
pub open spec fn call_span_of(bbs: Seq<BasicBlockData>, b: usize) -> Span {
    match bbs[b as int].terminator {
        Some(t) => match t.kind {
            TerminatorKind::Call { fn_span, .. } => fn_span,
            _ => Span { lo: 0, hi: 0 },
        },
        None => Span { lo: 0, hi: 0 },
    }
}

/// Where the detector reports in a body: nothing without a `set_code_hash` call; every such
/// call when the caller is never queried; otherwise the calls reached from the first block
/// without a check on the caller.
pub open spec fn spec_set_code_hash_findings(bbs: Seq<BasicBlockData>, caller_def_id: Option<u64>, terminate_def_id: Option<u64>) -> Seq<Span> {
    let callers = blocks_calling(bbs, caller_def_id, bbs.len() as int);
    let terminates = blocks_calling(bbs, terminate_def_id, bbs.len() as int);
    if terminates.len() == 0 {
        seq![]
    } else if callers.len() == 0 {
        terminates.map_values(|b: usize| call_span_of(bbs, b))
    } else {
        sch_nav(bbs, (callers, terminates), 0, false, seq![], some_rank(bbs, 0).0[0] + 1).0.map_values(|p: (Place, Span)| p.1)
    }
}

fn call_span_exec(data: &BasicBlockData) -> (r: Option<Span>)
    ensures
        r == (match data.terminator {
            Some(t) => match t.kind {
                TerminatorKind::Call { fn_span, .. } => Some(fn_span),
                _ => None,
            },
            None => None,
        }),
{
    match &data.terminator {
        Some(t) => match &t.kind {
            TerminatorKind::Call { fn_span, .. } => Some(*fn_span),
            _ => None,
        },
        None => None,
    }
}

proof fn lemma_blocks_calling_are_calls(bbs: Seq<BasicBlockData>, def: Option<u64>, n: int)
    requires
        n <= bbs.len(),
        bbs.len() <= usize::MAX,
    ensures
        forall|k: int| 0 <= k < blocks_calling(bbs, def, n).len() ==> {
            let b = #[trigger] blocks_calling(bbs, def, n)[k];
            &&& b < bbs.len()
            &&& called_def(bbs, b as int) is Some
        },
    decreases n,
{
    if n > 0 {
        lemma_blocks_calling_are_calls(bbs, def, n - 1);
        let rest = blocks_calling(bbs, def, n - 1);
        if def is Some && called_def(bbs, n - 1) == def {
            assert forall|k: int| 0 <= k < blocks_calling(bbs, def, n).len() implies {
                let b = #[trigger] blocks_calling(bbs, def, n)[k];
                &&& b < bbs.len()
                &&& called_def(bbs, b as int) is Some
            } by {
                if k < rest.len() {
                    assert(blocks_calling(bbs, def, n)[k] == rest[k]);
                }
            }
        }
    }
}

/// The spans at which the detector reports `set_code_hash` calls in a body.
pub fn set_code_hash_findings(bbs: &Vec<BasicBlockData>, caller_def_id: Option<u64>, terminate_def_id: Option<u64>) -> (r: Vec<Span>)
    requires
        blocks_calling(bbs@, caller_def_id, bbs@.len() as int).len() > 0
            && blocks_calling(bbs@, terminate_def_id, bbs@.len() as int).len() > 0 ==> terminates(bbs@, 0),
    ensures
        r@ == spec_set_code_hash_findings(bbs@, caller_def_id, terminate_def_id),
{
    let cat = find_caller_and_terminate_in_mir(bbs, caller_def_id, terminate_def_id);
    let n_blocks = bbs.len();
    let mut r: Vec<Span> = Vec::new();
    if cat.terminates.len() == 0 {
        assert(r@ =~= seq![]);
        return r;
    }
    if cat.callers.len() == 0 {
        proof {
            lemma_blocks_calling_are_calls(bbs@, terminate_def_id, bbs@.len() as int);
        }
        let mut i: usize = 0;
        while i < cat.terminates.len()
            invariant
                i <= cat.terminates@.len(),
                cat.terminates@ == blocks_calling(bbs@, terminate_def_id, bbs@.len() as int),
                forall|k: int| 0 <= k < cat.terminates@.len() ==> {
                    let b = #[trigger] cat.terminates@[k];
                    &&& b < bbs@.len()
                    &&& called_def(bbs@, b as int) is Some
                },
                r@ == cat.terminates@.subrange(0, i as int).map_values(|b: usize| call_span_of(bbs@, b)),
            decreases cat.terminates@.len() - i,
        {
            let b = cat.terminates[i];
            assert(called_def(bbs@, b as int) is Some);
            if let Some(span) = call_span_exec(&bbs[b]) {
                r.push(span);
            }
            assert(cat.terminates@.subrange(0, i + 1).map_values(|b: usize| call_span_of(bbs@, b))
                =~= cat.terminates@.subrange(0, i as int).map_values(|b: usize| call_span_of(bbs@, b)).push(call_span_of(bbs@, b)));
            i = i + 1;
        }
        assert(cat.terminates@.subrange(0, cat.terminates@.len() as int) =~= cat.terminates@);
        return r;
    }
    assert(bbs@.len() > 0) by {
        assert(cat.terminates@[0] < bbs@.len()) by {
            lemma_blocks_calling_are_calls(bbs@, terminate_def_id, bbs@.len() as int);
        }
    }
    let mut tainted: Vec<Place> = Vec::new();
    let unchecked = navigate_trough_basicblocks(bbs, 0, &cat, false, &mut tainted);
    let mut i: usize = 0;
    while i < unchecked.len()
        invariant
            i <= unchecked@.len(),
            r@ == unchecked@.subrange(0, i as int).map_values(|p: (Place, Span)| p.1),
        decreases unchecked@.len() - i,
    {
        r.push(unchecked[i].1);
        assert(unchecked@.subrange(0, i + 1).map_values(|p: (Place, Span)| p.1)
            =~= unchecked@.subrange(0, i as int).map_values(|p: (Place, Span)| p.1).push(unchecked@[i as int].1));
        i = i + 1;
    }
    assert(unchecked@.subrange(0, unchecked@.len() as int) =~= unchecked@);
    r
}

/// What the source walk reports of one call expression of the body, in walk order.
pub enum FinderEvent {
    /// A method call on `receiver`. `receiver_adt_path` is the definition path of the
    /// receiver's type when it is an ADT; `def_id` is the method's definition.
    MethodCall { method: String, receiver: Expr, receiver_adt_path: Option<String>, def_id: Option<u64>, span: Span },
    /// A call of a resolved path, with its segment names and the definition it resolves to.
    PathCall { segments: Vec<String>, res_def: Option<u64>, span: Span },
}

/// What the source walk has found: the last `set_code_hash` call and the caller query.
#[derive(Debug, Clone, Copy, PartialEq, Eq, Structural)]
pub struct SetCodeHashFinder {
    pub terminate_contract_span: Option<Span>,
    pub terminate_contract_def_id: Option<u64>,
    pub caller_def_id: Option<u64>,
}

/// `e` is `self.env()`: a call of `env` on a path, without qualifier, whose first segment is
/// `self`.
pub open spec fn spec_is_self_env(e: Expr) -> bool {
    match e.kind {
        ExprKind::MethodCall { method, receiver, .. } => method@ == "env"@ && match receiver.kind {
            ExprKind::Path(q) => match q {
                QPath::Resolved { segments, has_qualifier, .. } => !has_qualifier && segments@.len() > 0
                    && segments@[0].name@ == "self"@,
                _ => false,
            },
            _ => false,
        },
        _ => false,
    }
}

/// Whether `e` is `self.env()`.
pub fn is_self_env(e: &Expr) -> (r: bool)
    ensures
        r == spec_is_self_env(*e),
{
    if let ExprKind::MethodCall { method, receiver, .. } = &e.kind {
        if !crate::text::str_eq(method.as_str(), "env") {
            return false;
        }
        if let ExprKind::Path(QPath::Resolved { segments, has_qualifier, .. }) = &receiver.kind {
            return !*has_qualifier && segments.len() > 0 && crate::text::str_eq(segments[0].name.as_str(), "self");
        }
    }
    false
}

/// Some segment is named `set_code_hash`.
pub open spec fn names_set_code_hash(segments: Seq<String>) -> bool {
    exists|i: int| 0 <= i < segments.len() && segments[i]@ == "set_code_hash"@
}

/// The effect of one call expression on what the walk has found.
pub open spec fn finder_step(f: SetCodeHashFinder, e: FinderEvent) -> SetCodeHashFinder {
    match e {
        FinderEvent::MethodCall { method, receiver, receiver_adt_path, def_id, span } => {
            let f1 = if spec_is_self_env(receiver) && method@ == "caller"@ {
                SetCodeHashFinder { caller_def_id: def_id, ..f }
            } else {
                f
            };
            if method@ == "set_code_hash"@ && receiver_adt_path is Some && receiver_adt_path->0@ == "ink::env_access::EnvAccess"@ {
                SetCodeHashFinder { terminate_contract_span: Some(span), terminate_contract_def_id: def_id, ..f1 }
            } else {
                f1
            }
        },
        FinderEvent::PathCall { segments, res_def, span } => {
            if names_set_code_hash(segments@) {
                SetCodeHashFinder {
                    terminate_contract_span: Some(span),
                    terminate_contract_def_id: if res_def is Some { res_def } else { f.terminate_contract_def_id },
                    ..f
                }
            } else {
                f
            }
        },
    }
}

/// The effect of the call expressions of a body, in walk order.
pub open spec fn finder_fold(events: Seq<FinderEvent>, f: SetCodeHashFinder) -> SetCodeHashFinder
    decreases events.len(),
{
    if events.len() == 0 {
        f
    } else {
        finder_step(finder_fold(events.drop_last(), f), events.last())
    }
}

impl SetCodeHashFinder {
    /// Nothing found yet.
    pub fn new() -> (r: SetCodeHashFinder)
        ensures
            r == (SetCodeHashFinder { terminate_contract_span: None, terminate_contract_def_id: None, caller_def_id: None }),
    {
        SetCodeHashFinder { terminate_contract_span: None, terminate_contract_def_id: None, caller_def_id: None }
    }

    /// Records one call expression: a caller query on `self.env()`, a `set_code_hash`
    /// method on the environment, or a call of a path that names `set_code_hash`.
    pub fn visit_expr(&mut self, e: &FinderEvent)
        ensures
            *final(self) == finder_step(*old(self), *e),
    {
        proof {
            reveal_strlit("caller");
            reveal_strlit("set_code_hash");
            reveal_strlit("ink::env_access::EnvAccess");
        }
        match e {
            FinderEvent::MethodCall { method, receiver, receiver_adt_path, def_id, span } => {
                if crate::text::str_eq(method.as_str(), "caller") && is_self_env(receiver) {
                    self.caller_def_id = *def_id;
                }
                if crate::text::str_eq(method.as_str(), "set_code_hash") {
                    if let Some(path) = receiver_adt_path {
                        if crate::text::str_eq(path.as_str(), "ink::env_access::EnvAccess") {
                            self.terminate_contract_span = Some(*span);
                            self.terminate_contract_def_id = *def_id;
                        }
                    }
                }
            },
            FinderEvent::PathCall { segments, res_def, span } => {
                let mut found = false;
                let mut i: usize = 0;
                while i < segments.len()
                    invariant
                        i <= segments@.len(),
                        found == exists|k: int| 0 <= k < i && segments@[k]@ == "set_code_hash"@,
                    decreases segments@.len() - i,
                {
                    if crate::text::str_eq(segments[i].as_str(), "set_code_hash") {
                        found = true;
                    }
                    i = i + 1;
                }
                if found {
                    self.terminate_contract_span = Some(*span);
                    if let Some(id) = res_def {
                        self.terminate_contract_def_id = Some(*id);
                    }
                }
            },
        }
    }

    /// Walks the call expressions of a body in order.
    pub fn visit_all(events: &Vec<FinderEvent>) -> (r: SetCodeHashFinder)
        ensures
            r == finder_fold(events@, SetCodeHashFinder { terminate_contract_span: None, terminate_contract_def_id: None, caller_def_id: None }),
    {
        let mut f = SetCodeHashFinder::new();
        let mut i: usize = 0;
        while i < events.len()
            invariant
                i <= events@.len(),
                f == finder_fold(events@.subrange(0, i as int), SetCodeHashFinder { terminate_contract_span: None, terminate_contract_def_id: None, caller_def_id: None }),
            decreases events@.len() - i,
        {
            assert(events@.subrange(0, i + 1).drop_last() =~= events@.subrange(0, i as int));
            f.visit_expr(&events[i]);
            i = i + 1;
        }
        assert(events@.subrange(0, events@.len() as int) =~= events@);
        f
    }
}


impl SetCodeHash {
    /// The spans the pass reports in a function: the source walk of its call expressions
    /// finds the caller query and the `set_code_hash` call, and the control-flow graph of its
    /// body says which calls are reached unchecked.
    pub fn check_fn(&self, events: &Vec<FinderEvent>, bbs: &Vec<BasicBlockData>) -> (r: Vec<Span>)
        requires
            ({
                let f = finder_fold(events@, SetCodeHashFinder { terminate_contract_span: None, terminate_contract_def_id: None, caller_def_id: None });
                blocks_calling(bbs@, f.caller_def_id, bbs@.len() as int).len() > 0
                    && blocks_calling(bbs@, f.terminate_contract_def_id, bbs@.len() as int).len() > 0 ==> terminates(bbs@, 0)
            }),
        ensures
            r@ == spec_set_code_hash_findings(
                bbs@,
                finder_fold(events@, SetCodeHashFinder { terminate_contract_span: None, terminate_contract_def_id: None, caller_def_id: None }).caller_def_id,
                finder_fold(events@, SetCodeHashFinder { terminate_contract_span: None, terminate_contract_def_id: None, caller_def_id: None }).terminate_contract_def_id,
            ),
    {
        let finder = SetCodeHashFinder::visit_all(events);
        set_code_hash_findings(bbs, finder.caller_def_id, finder.terminate_contract_def_id)
    }
}

} // verus!
