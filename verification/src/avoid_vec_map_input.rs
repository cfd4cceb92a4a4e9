//! Contract functions that take Soroban `Vec` or `Map` parameters, whose contents nothing
//! validates.
use vstd::prelude::*;
use crate::hir::Span;
use std::collections::HashMap;
use vstd::multiset::Multiset;
use crate::text::{names_contain, push_name};

verus! {

broadcast use vstd::std_specs::hash::group_hash_axioms;

/// What the type checker says of a parameter's type.
pub struct ParamTyInfo {
    pub is_soroban_vec: bool,
    pub is_soroban_map: bool,
    /// The type as the compiler prints it.
    pub name: String,
}

/// A parameter of a function body.
pub struct ParamTy {
    pub span: Span,
    /// Its type, when the type checker knows it.
    pub ty: Option<ParamTyInfo>,
}

/// A parameter the pass flags, with the name of its type.
pub struct FlaggedParam {
    pub span: Span,
    pub ty_name: String,
}

/// A flagged parameter by value.
pub open spec fn flag_view(f: FlaggedParam) -> (Span, Seq<char>) {
    (f.span, f.ty_name@)
}

/// The flag a parameter gets: one whose type is Soroban's `Vec` or `Map`.
pub open spec fn spec_detect(p: ParamTy) -> Option<(Span, Seq<char>)> {
    match p.ty {
        Some(t) => if t.is_soroban_vec || t.is_soroban_map { Some((p.span, t.name@)) } else { None },
        None => None,
    }
}

/// The flags of a function's parameters, in order.
pub open spec fn flagged_of(params: Seq<ParamTy>) -> Seq<(Span, Seq<char>)> {
    params.filter_map(|p: ParamTy| spec_detect(p))
}

/// The flags of a sequence of flagged parameters, by value.
pub open spec fn flags_view(v: Seq<FlaggedParam>) -> Seq<(Span, Seq<char>)> {
    v.map_values(|f: FlaggedParam| flag_view(f))
}

/// Flags a parameter whose type is Soroban's `Vec` or `Map`.
pub fn detect_vec_or_map_param(param: &ParamTy) -> (r: Option<FlaggedParam>)
    ensures
        match r {
            Some(f) => spec_detect(*param) == Some(flag_view(f)),
            None => spec_detect(*param) is None,
        },
{
    match &param.ty {
        Some(t) => if t.is_soroban_vec || t.is_soroban_map {
            Some(FlaggedParam { span: param.span, ty_name: t.name.clone() })
        } else {
            None
        },
        None => None,
    }
}

/// The help for a flagged parameter of type `ty_name`.
pub open spec fn spec_help(ty_name: Seq<char>) -> Seq<char> {
    "Validate `"@ + ty_name + "` contents or convert them to contract-defined types before using or storing them."@
}

/// The help for a flagged parameter.
pub fn help_message(ty_name: &str) -> (r: String)
    ensures
        r@ == spec_help(ty_name@),
{
    String::from_str("Validate `").concat(ty_name).concat("` contents or convert them to contract-defined types before using or storing them.")
}

/// The findings for the flagged parameters `params` of the function `def_id`: their spans and
/// helps, in order, when it is a contract function.
pub open spec fn findings_of(def_id: u64, params: Seq<FlaggedParam>, contract_fns: Seq<u64>) -> Seq<(Span, Seq<char>)> {
    if contract_fns.contains(def_id) {
        params.map_values(|f: FlaggedParam| (f.span, spec_help(f.ty_name@)))
    } else {
        seq![]
    }
}

/// The findings of the end of the crate: for each function recorded that is a contract
/// function, the span and help of each of its flagged parameters; the functions in no
/// particular order.
pub open spec fn spec_post(entries: Map<u64, Vec<FlaggedParam>>, contract_fns: Seq<u64>) -> Multiset<(Span, Seq<char>)>
    decreases entries.dom().len(),
    when entries.dom().finite()
{
    if entries.dom().len() == 0 {
        Multiset::empty()
    } else {
        let f = entries.dom().choose();
        spec_post(entries.remove(f), contract_fns).add(findings_of(f, entries[f]@, contract_fns).to_multiset())
    }
}

/// The findings of a map with one more function are those of the map and that function's.
proof fn lemma_spec_post_remove(entries: Map<u64, Vec<FlaggedParam>>, contract_fns: Seq<u64>, k: u64)
    requires
        entries.dom().finite(),
        entries.contains_key(k),
    ensures
        spec_post(entries, contract_fns)
            == spec_post(entries.remove(k), contract_fns).add(findings_of(k, entries[k]@, contract_fns).to_multiset()),
    decreases entries.dom().len(),
{
    let c = entries.dom().choose();
    assert(entries.dom().contains(c));
    if c != k {
        let dc = entries.remove(c);
        let dk = entries.remove(k);
        assert(dc.dom() =~= entries.dom().remove(c));
        assert(dk.dom() =~= entries.dom().remove(k));
        lemma_spec_post_remove(dc, contract_fns, k);
        lemma_spec_post_remove(dk, contract_fns, c);
        assert(dc.remove(k) =~= dk.remove(c));
        let base = spec_post(dc.remove(k), contract_fns);
        let ek = findings_of(k, entries[k]@, contract_fns).to_multiset();
        let ec = findings_of(c, entries[c]@, contract_fns).to_multiset();
        assert(base.add(ek).add(ec) =~= base.add(ec).add(ek));
    }
}

/// The lint pass: the functions checked so far, by their definition paths, and the flagged
/// parameters of each function that has some.
pub struct AvoidVecMapInput {
    pub checked_functions: Vec<String>,
    pub flagged_params: HashMap<u64, Vec<FlaggedParam>>,
}

impl AvoidVecMapInput {
    /// A pass that has checked nothing.
    pub fn new() -> (r: Self)
        ensures
            r.checked_functions@ == Seq::<String>::empty(),
            r.flagged_params@ == Map::<u64, Vec<FlaggedParam>>::empty(),
    {
        AvoidVecMapInput { checked_functions: Vec::new(), flagged_params: HashMap::new() }
    }

    /// Checks the function `def_id`, whose definition path is `def_path`: the path is
    /// recorded; unless the function comes from a macro expansion, its flagged parameters, if
    /// any, are recorded under `def_id`.
    #[verifier::loop_isolation(false)]
    pub fn check_fn(&mut self, def_id: u64, def_path: &str, from_expansion: bool, params: &Vec<ParamTy>)
        ensures
            forall|x: Seq<char>| names_contain(final(self).checked_functions@, x) <==> (names_contain(old(self).checked_functions@, x) || x == def_path@),
            if from_expansion || flagged_of(params@).len() == 0 {
                final(self).flagged_params@ == old(self).flagged_params@
            } else {
                exists|v: Vec<FlaggedParam>| flags_view(v@) == flagged_of(params@)
                    && final(self).flagged_params@ == old(self).flagged_params@.insert(def_id, v)
            },
    {
        push_name(&mut self.checked_functions, def_path);
        if from_expansion {
            return;
        }
        let ghost f = |p: ParamTy| spec_detect(p);
        let mut flagged: Vec<FlaggedParam> = Vec::new();
        let mut i: usize = 0;
        while i < params.len()
            invariant
                i <= params@.len(),
                flags_view(flagged@) == params@.take(i as int).filter_map(f),
            decreases params@.len() - i,
        {
            proof {
                params@.lemma_filter_map_take_succ(f, i as int);
            }
            let ghost old_fl = flagged@;
            match detect_vec_or_map_param(&params[i]) {
                Some(fp) => {
                    assert(f(params@[i as int]) == Some(flag_view(fp)));
                    flagged.push(fp);
                    assert(flags_view(flagged@) =~= flags_view(old_fl).push(flag_view(fp)));
                    assert(params@.take(i + 1).filter_map(f) =~= params@.take(i as int).filter_map(f) + seq![flag_view(fp)]);
                },
                None => {
                    assert(f(params@[i as int]) is None);
                    assert(params@.take(i + 1).filter_map(f) =~= params@.take(i as int).filter_map(f));
                },
            }
            i = i + 1;
        }
        assert(params@.take(params@.len() as int) =~= params@);
        if flagged.len() > 0 {
            let ghost v = flagged;
            self.flagged_params.insert(def_id, flagged);
            assert(flags_view(v@) == flagged_of(params@));
        }
    }

    /// The findings at the end of the crate, given the functions that are contract functions:
    /// the span and help of each flagged parameter of each such function; the parameters of a
    /// function in order, the functions in no particular order.
    #[verifier::loop_isolation(false)]
    pub fn check_crate_post(&self, contract_fns: &Vec<u64>) -> (r: Vec<(Span, String)>)
        ensures
            r@.map_values(|p: (Span, String)| (p.0, p.1@)).to_multiset() == spec_post(self.flagged_params@, contract_fns@),
    {
        broadcast use vstd::seq_lib::group_to_multiset_ensures;
        let ghost g = |p: (Span, String)| (p.0, p.1@);
        let ghost fm = self.flagged_params@;
        let ghost mut done: Set<u64> = Set::empty();
        let mut r: Vec<(Span, String)> = Vec::new();
        proof {
            assert(fm.restrict(done).dom() =~= Set::<u64>::empty());
            assert(r@.map_values(g) =~= Seq::<(Span, Seq<char>)>::empty());
            assert(r@.map_values(g).to_multiset() =~= Multiset::<(Span, Seq<char>)>::empty());
        }
        for p in it: self.flagged_params.iter()
            invariant
                fm == self.flagged_params@,
                fm.dom().finite(),
                it.seq().len() == fm.dom().len(),
                forall|i: int| 0 <= i < it.seq().len() ==> fm.contains_key(*it.seq()[i].0) && fm[*it.seq()[i].0] == *it.seq()[i].1,
                forall|k: u64| #[trigger] fm.contains_key(k) ==> it.seq().contains((&k, &fm[k])),
                it.seq().no_duplicates(),
                forall|k: u64| #[trigger] done.contains(k) <==> exists|i: int| 0 <= i < it.index() && *it.seq()[i].0 == k,
                it.index() == it.seq().len() ==> forall|k: u64| #[trigger] fm.contains_key(k) ==> done.contains(k),
                done.finite(),
                r@.map_values(g).to_multiset() == spec_post(fm.restrict(done), contract_fns@),
        {
            let (def_ref, params) = p;
            let def_id = *def_ref;
            let ghost idx = it.index();
            proof {
                assert(*it.seq()[idx].0 == def_id);
                if done.contains(def_id) {
                    let i = choose|i: int| 0 <= i < idx && *it.seq()[i].0 == def_id;
                    assert(it.seq()[i] == it.seq()[idx]);
                }
            }
            let mut found = false;
            let mut j: usize = 0;
            while j < contract_fns.len()
                invariant
                    j <= contract_fns@.len(),
                    found == exists|m: int| 0 <= m < j && contract_fns@[m] == def_id,
                decreases contract_fns@.len() - j,
            {
                if contract_fns[j] == def_id {
                    found = true;
                }
                j = j + 1;
            }
            assert(found == contract_fns@.contains(def_id));
            let ghost r0 = r@.map_values(g);
            let ghost h = |f: FlaggedParam| (f.span, spec_help(f.ty_name@));
            if found {
                let mut i: usize = 0;
                while i < params.len()
                    invariant
                        i <= params@.len(),
                        r@.map_values(g) == r0 + params@.take(i as int).map_values(h),
                    decreases params@.len() - i,
                {
                    let msg = help_message(params[i].ty_name.as_str());
                    let ghost old_r = r@;
                    r.push((params[i].span, msg));
                    assert(r@ == old_r.push((params@[i as int].span, msg)));
                    assert(g((params@[i as int].span, msg)) == h(params@[i as int]));
                    assert(r@.map_values(g) =~= old_r.map_values(g).push(h(params@[i as int])));
                    assert(params@.take(i + 1).map_values(h) =~= params@.take(i as int).map_values(h).push(h(params@[i as int])));
                    assert(r@.map_values(g) =~= r0 + params@.take(i + 1).map_values(h));
                    i = i + 1;
                }
                assert(params@.take(params@.len() as int) =~= params@);
                assert(r@.map_values(g) == r0 + findings_of(def_id, params@, contract_fns@));
            } else {
                assert(r@.map_values(g) =~= r0 + findings_of(def_id, params@, contract_fns@));
            }
            proof {
                vstd::seq_lib::lemma_multiset_commutative(r0, findings_of(def_id, params@, contract_fns@));
            }
            let ghost prev = done;
            proof {
                done = done.insert(def_id);
            }
            proof {
                let nd = done;
                let old_r = fm.restrict(prev);
                let new_r = fm.restrict(nd);
                assert(new_r.dom() =~= fm.dom().intersect(nd));
                assert(old_r.dom() =~= fm.dom().intersect(prev));
                assert(new_r.remove(def_id) =~= old_r);
                lemma_spec_post_remove(new_r, contract_fns@, def_id);
                assert(new_r[def_id] == *params);
                assert(r@.map_values(g).to_multiset() =~= spec_post(new_r, contract_fns@));
                assert forall|k: u64| #[trigger] done.contains(k) <==> exists|i: int| 0 <= i < idx + 1 && *it.seq()[i].0 == k by {
                    if k == def_id {
                        assert(*it.seq()[idx].0 == k);
                    }
                }
                assert forall|k: u64| idx + 1 == it.seq().len() && #[trigger] fm.contains_key(k) implies done.contains(k) by {
                    let i = choose|i: int| 0 <= i < it.seq().len() && it.seq()[i] == (&k, &fm[k]);
                    assert(*it.seq()[i].0 == k);
                }
            }
        }
        proof {
            assert(fm.restrict(done) =~= fm);
        }
        r
    }
}

} // verus!
