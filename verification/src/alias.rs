//! Tracing a value back to the parameter it came from: identity operations are stripped,
//! and `let` aliases are followed to the binding they stand for.
use vstd::prelude::*;
use std::collections::HashMap;
use crate::hir::{Expr, ExprKind, UnOp, spec_get_expr_hir_id_opt, get_expr_hir_id_opt};
use crate::text::str_eq;

verus! {

broadcast use vstd::std_specs::hash::group_hash_axioms;

/// The methods that hand back their receiver's value: `clone`, `to_owned` and `into`.
pub open spec fn is_identity_method(m: Seq<char>) -> bool {
    m == "clone"@ || m == "to_owned"@ || m == "into"@
}

/// Whether the method hands back its receiver's value.
pub fn is_identity_method_exec(m: &str) -> (r: bool)
    ensures
        r == is_identity_method(m@),
{
    str_eq(m, "clone") || str_eq(m, "to_owned") || str_eq(m, "into")
}

/// The expression with identity operations stripped: blocks that hold only a tail
/// expression, borrows, dereferences and calls of `clone`, `to_owned` and `into`.
pub open spec fn spec_strip_identity(e: Expr) -> Expr
    decreases e,
{
    match e.kind {
        ExprKind::Block { stmts, tail } => match tail {
            Some(t) => if stmts@.len() == 0 { spec_strip_identity(*t) } else { e },
            None => e,
        },
        ExprKind::AddrOf(_, x) => spec_strip_identity(*x),
        ExprKind::Unary(op, x) => if op == UnOp::Deref { spec_strip_identity(*x) } else { e },
        ExprKind::MethodCall { method, receiver, .. } => if is_identity_method(method@) {
            spec_strip_identity(*receiver)
        } else {
            e
        },
        _ => e,
    }
}

/// Strips identity operations off `e`.
pub fn strip_identity(e: &Expr) -> (r: &Expr)
    ensures
        *r == spec_strip_identity(*e),
    decreases *e,
{
    match &e.kind {
        ExprKind::Block { stmts, tail } => {
            if stmts.len() == 0 {
                if let Some(t) = tail {
                    return strip_identity(t);
                }
            }
            e
        },
        ExprKind::AddrOf(_, x) => strip_identity(x),
        ExprKind::Unary(op, x) => {
            if *op == UnOp::Deref {
                strip_identity(x)
            } else {
                e
            }
        },
        ExprKind::MethodCall { method, receiver, .. } => {
            if is_identity_method_exec(method.as_str()) {
                strip_identity(receiver)
            } else {
                e
            }
        },
        _ => e,
    }
}

/// The identifier the stripped expression stands for.
pub open spec fn spec_stripped_id(e: Expr) -> Option<u64> {
    spec_get_expr_hir_id_opt(spec_strip_identity(e))
}

/// The identifier `e` stands for once identity operations are stripped.
pub fn get_expr_hir_id_stripped(e: &Expr) -> (r: Option<u64>)
    ensures
        r == spec_stripped_id(*e),
{
    get_expr_hir_id_opt(strip_identity(e))
}

/// Following stops at `x`: it has no alias, or is its own.
pub open spec fn alias_stop(m: Map<u64, u64>, x: u64) -> bool {
    !m.dom().contains(x) || m[x] == x
}

/// Where `n` steps of following aliases from `x` lead.
pub open spec fn follow(m: Map<u64, u64>, x: u64, n: nat) -> u64
    decreases n,
{
    if n == 0 {
        x
    } else {
        let y = follow(m, x, (n - 1) as nat);
        if alias_stop(m, y) { y } else { m[y] }
    }
}

/// `itime` ranks the aliases by when they were made, none later than `bound`: an alias that
/// leads on to another alias leads to a later one. So following aliases stops.
pub open spec fn aliases_ranked(m: Map<u64, u64>, itime: Map<u64, nat>, bound: nat) -> bool {
    forall|k: u64| #[trigger] m.dom().contains(k) ==> {
        &&& itime.dom().contains(k)
        &&& itime[k] <= bound
        &&& (m[k] != k && !alias_stop(m, m[k]) ==> itime.dom().contains(m[k]) && itime[m[k]] > itime[k])
    }
}

/// Following aliases from any identifier stops.
pub open spec fn aliases_acyclic(m: Map<u64, u64>) -> bool {
    exists|itime: Map<u64, nat>, bound: nat| aliases_ranked(m, itime, bound)
}

/// Adding an alias of `p` to an identifier where following stops keeps the aliases ranked,
/// with `p` the latest alias.
pub proof fn lemma_alias_insert_ranked(m: Map<u64, u64>, itime: Map<u64, nat>, bound: nat, p: u64, r: u64)
    requires
        aliases_ranked(m, itime, bound),
        alias_stop(m, r),
    ensures
        aliases_ranked(m.insert(p, r), itime.insert(p, bound + 1), bound + 1),
{
    let m2 = m.insert(p, r);
    let it2 = itime.insert(p, bound + 1);
    assert forall|k: u64| #[trigger] m2.dom().contains(k) implies {
        &&& it2.dom().contains(k)
        &&& it2[k] <= bound + 1
        &&& (m2[k] != k && !alias_stop(m2, m2[k]) ==> it2.dom().contains(m2[k]) && it2[m2[k]] > it2[k])
    } by {
        if k != p {
            assert(m.dom().contains(k));
            let t = m[k];
            if t != p {
                assert(alias_stop(m2, t) == alias_stop(m, t));
            }
        } else if r != p {
            assert(alias_stop(m2, r) == alias_stop(m, r));
        }
    }
}

/// Following aliases from `x` leads to `r`, where it stops.
pub open spec fn is_resolution(m: Map<u64, u64>, x: u64, r: u64) -> bool {
    alias_stop(m, r) && exists|n: nat| follow(m, x, n) == r
}

/// Once following stops, further steps stay where it stopped.
pub proof fn lemma_follow_stays(m: Map<u64, u64>, x: u64, n: nat, k: nat)
    requires
        alias_stop(m, follow(m, x, n)),
        n <= k,
    ensures
        follow(m, x, k) == follow(m, x, n),
    decreases k - n,
{
    if n < k {
        lemma_follow_stays(m, x, n, (k - 1) as nat);
    }
}

/// An identifier has one resolution at most.
pub proof fn law_resolution_unique(m: Map<u64, u64>, x: u64, r1: u64, r2: u64)
    requires
        is_resolution(m, x, r1),
        is_resolution(m, x, r2),
    ensures
        r1 == r2,
{
    let n1 = choose|n: nat| follow(m, x, n) == r1;
    let n2 = choose|n: nat| follow(m, x, n) == r2;
    if n1 <= n2 {
        lemma_follow_stays(m, x, n1, n2);
    } else {
        lemma_follow_stays(m, x, n2, n1);
    }
}

/// Follows the aliases from `hir_id` to the identifier where following stops.
#[verifier::loop_isolation(false)]
pub fn resolve_alias(hir_id: u64, aliases: &HashMap<u64, u64>) -> (r: u64)
    requires
        aliases_acyclic(aliases@),
    ensures
        is_resolution(aliases@, hir_id, r),
{
    let ghost m = aliases@;
    let ghost (itime, bound) = choose|itime: Map<u64, nat>, bound: nat| aliases_ranked(m, itime, bound);
    let mut current = hir_id;
    let ghost mut k: nat = 0;
    loop
        invariant
            current == follow(m, hir_id, k),
            aliases_ranked(m, itime, bound),
        decreases (if alias_stop(m, current) { 0int } else { bound + 1 - itime[current] }),
    {
        match aliases.get(&current) {
            Some(next) => {
                let next = *next;
                if next == current {
                    break;
                }
                proof {
                    assert(m.dom().contains(current));
                    k = k + 1;
                }
                current = next;
            },
            None => {
                break;
            },
        }
    }
    current
}

/// The parameter an expression traces back to: the stripped identifier, aliases followed,
/// when that is a parameter's binding.
pub open spec fn spec_resolve_to_param(e: Expr, aliases: Map<u64, u64>, param_by_hir: Map<u64, usize>) -> Option<u64> {
    match spec_stripped_id(e) {
        Some(id) => {
            let r = choose|r: u64| is_resolution(aliases, id, r);
            if param_by_hir.dom().contains(r) { Some(r) } else { None }
        },
        None => None,
    }
}

/// An identifier resolves to the chosen resolution.
pub proof fn lemma_resolution_is_chosen(m: Map<u64, u64>, x: u64, r: u64)
    requires
        is_resolution(m, x, r),
    ensures
        r == choose|r2: u64| is_resolution(m, x, r2),
{
    let c = choose|r2: u64| is_resolution(m, x, r2);
    law_resolution_unique(m, x, r, c);
}

/// The parameter binding `e` traces back to, if any.
pub fn resolve_expr_to_param(e: &Expr, aliases: &HashMap<u64, u64>, param_by_hir: &HashMap<u64, usize>) -> (r: Option<u64>)
    requires
        aliases_acyclic(aliases@),
    ensures
        r == spec_resolve_to_param(*e, aliases@, param_by_hir@),
        r matches Some(h) ==> alias_stop(aliases@, h),
{
    match get_expr_hir_id_stripped(e) {
        Some(id) => {
            let resolved = resolve_alias(id, aliases);
            proof {
                lemma_resolution_is_chosen(aliases@, id, resolved);
            }
            if param_by_hir.contains_key(&resolved) {
                Some(resolved)
            } else {
                None
            }
        },
        None => None,
    }
}

} // verus!
