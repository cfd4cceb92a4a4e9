//! Contracts that look like tokens without implementing the token interface: enough of the
//! interface's functions appear, by name within one edit, and the trait is not implemented.
use vstd::prelude::*;
use crate::hir::Span;
use crate::text::str_eq;
use crate::admin_auth::{edit_distance, edit_distance_of};
use crate::delegated_spending::last_segment;

verus! {

/// The functions of the token interface, by their names without underscores.
pub open spec fn token_interface_functions() -> Seq<Seq<char>> {
    seq!["allowance"@, "approve"@, "balance"@, "transfer"@, "transferfrom"@, "burn"@, "burnfrom"@, "decimals"@, "name"@, "symbol"@]
}

/// The share of the interface, in percent, whose presence suggests a token.
pub const INCLUDED_FUNCTIONS_THRESHOLD: usize = 60;

/// The characters with the Unicode `White_Space` property.
pub open spec fn is_white_space(c: char) -> bool {
    ('\u{9}' <= c && c <= '\u{d}') || c == ' ' || c == '\u{85}' || c == '\u{a0}' || c == '\u{1680}'
        || ('\u{2000}' <= c && c <= '\u{200a}') || c == '\u{2028}' || c == '\u{2029}' || c == '\u{202f}'
        || c == '\u{205f}' || c == '\u{3000}'
}

/// Whether the character has the Unicode `White_Space` property.
pub fn char_is_whitespace(c: char) -> (r: bool)
    ensures
        r == is_white_space(c),
{
    ('\u{9}' <= c && c <= '\u{d}') || c == ' ' || c == '\u{85}' || c == '\u{a0}' || c == '\u{1680}'
        || ('\u{2000}' <= c && c <= '\u{200a}') || c == '\u{2028}' || c == '\u{2029}' || c == '\u{202f}'
        || c == '\u{205f}' || c == '\u{3000}'
}

/// The lower-case form of a string, as `str::to_lowercase` gives it (Unicode case mapping).
pub uninterp spec fn lowercase_of(s: Seq<char>) -> Seq<char>;

/// Calls `str::to_lowercase`. Its contract claims only that the result is the Unicode
/// lower-case form of the string (named, not stated).
#[verifier::external_body]
fn to_lowercase(s: &str) -> (r: String)
    ensures
        r@ == lowercase_of(s@),
{
    s.to_lowercase()
}

/// The characters a formatted name keeps: all but underscores and white space.
pub open spec fn kept() -> spec_fn(char) -> bool {
    |c: char| c != '_' && !is_white_space(c)
}

/// The characters of `s` without underscores and white space.
pub open spec fn squeeze(s: Seq<char>) -> Seq<char> {
    s.filter(kept())
}

/// A function's name as compared with the interface: the last segment of its path, in lower
/// case, without underscores and white space.
pub open spec fn formatted_name(fn_name: Seq<char>) -> Seq<char> {
    squeeze(lowercase_of(last_segment(fn_name)))
}

/// The index of the first interface function within one edit of the formatted name.
pub open spec fn first_similar(name: Seq<char>) -> Option<int> {
    if exists|i: int| 0 <= i < 10 && #[trigger] edit_distance_of(name, token_interface_functions()[i]) <= 1 {
        Some(choose|i: int| 0 <= i < 10 && #[trigger] edit_distance_of(name, token_interface_functions()[i]) <= 1
            && forall|j: int| 0 <= j < i ==> #[trigger] edit_distance_of(name, token_interface_functions()[j]) > 1)
    } else {
        None
    }
}

#[verifier::loop_isolation(false)]
fn squeeze_exec(s: &str) -> (r: String)
    ensures
        r@ == squeeze(s@),
{
    let ghost p = kept();
    let mut r = String::new();
    let n = s.unicode_len();
    let mut i: usize = 0;
    proof {
        assert(r@ =~= s@.take(0).filter(p));
    }
    while i < n
        invariant
            n == s@.len(),
            i <= n,
            r@ == s@.take(i as int).filter(p),
        decreases n - i,
    {
        let c = s.get_char(i);
        proof {
            assert(s@.take(i + 1).drop_last() =~= s@.take(i as int));
            assert(s@.take(i + 1).last() == c);
        }
        proof {
            crate::seqs::lemma_take_succ(s@, i as int);
            assert(s@[i as int] == c);
            assert(s@.take(i + 1) == s@.take(i as int).push(c));
            s@.take(i as int).lemma_filter_push(c, p);
            assert(p(c) == (c != '_' && !is_white_space(c)));
            assert(s@.take(i + 1).filter(p) == if p(c) { s@.take(i as int).filter(p).push(c) } else { s@.take(i as int).filter(p) });
        }
        if c != '_' && !char_is_whitespace(c) {
            let piece = char_to_str(c);
            r.append(piece.as_str());
            assert(r@ =~= s@.take(i + 1).filter(p));
        } else {
            assert(r@ =~= s@.take(i + 1).filter(p));
        }
        i = i + 1;
    }
    assert(s@.take(n as int) =~= s@);
    r
}

/// Calls `char::to_string` (the `ToString` of `char`); the contract claims that the result
/// is the string of that one character.
#[verifier::external_body]
pub(crate) fn char_to_str(c: char) -> (r: String)
    ensures
        r@ == seq![c],
{
    c.to_string()
}

/// The interface function that the function named `fn_name` resembles: the first within one
/// edit of its formatted name.
#[verifier::loop_isolation(false)]
pub fn verify_token_interface_function_similarity(fn_name: &str) -> (r: Option<usize>)
    ensures
        match first_similar(formatted_name(fn_name@)) {
            Some(i) => r == Some(i as usize),
            None => r is None,
        },
{
    let start = crate::delegated_spending::last_segment_start(fn_name);
    let segment = fn_name.substring_char(start, fn_name.unicode_len());
    let lower = to_lowercase(segment);
    let formatted = squeeze_exec(lower.as_str());
    let names = vec!["allowance", "approve", "balance", "transfer", "transferfrom", "burn", "burnfrom", "decimals", "name", "symbol"];
    assert(names@.map_values(|s: &str| s@) =~= token_interface_functions());
    let ghost fm = formatted_name(fn_name@);
    assert(formatted@ == fm);
    let mut i: usize = 0;
    while i < names.len()
        invariant
            i <= 10,
            names@.len() == 10,
            names@.map_values(|s: &str| s@) == token_interface_functions(),
            formatted@ == fm,
            forall|j: int| 0 <= j < i ==> #[trigger] edit_distance_of(fm, token_interface_functions()[j]) > 1,
        decreases 10 - i,
    {
        assert(token_interface_functions()[i as int] == names@[i as int]@);
        if edit_distance(formatted.as_str(), names[i]) <= 1 {
            proof {
                assert(edit_distance_of(fm, token_interface_functions()[i as int]) <= 1);
                assert(first_similar(fm) is Some);
                let c = first_similar(fm)->0;
                assert(0 <= c < 10 && edit_distance_of(fm, token_interface_functions()[c]) <= 1
                    && forall|j: int| 0 <= j < c ==> #[trigger] edit_distance_of(fm, token_interface_functions()[j]) > 1);
                if c < i {
                    assert(edit_distance_of(fm, token_interface_functions()[c]) > 1);
                } else if c > i {
                    assert(edit_distance_of(fm, token_interface_functions()[i as int]) > 1);
                }
                assert(first_similar(fm) == Some(i as int));
            }
            return Some(i);
        }
        i = i + 1;
    }
    None
}

/// What the lint gathers over a crate: whether the token interface is implemented, which
/// interface functions were seen, and the spans of the names of the functions that resemble
/// them, each interface function once.
pub struct TokenInterfaceInference {
    pub impl_token_interface_trait: bool,
    pub detected_canonical_functions: Vec<usize>,
    pub funcs_spans: Vec<Span>,
}

/// Distinct interface functions, all among the ten, none of them `x`, are fewer than ten.
proof fn lemma_fewer_than_ten(s: Seq<usize>, x: usize)
    requires
        x < 10,
        s.no_duplicates(),
        forall|i: int| 0 <= i < s.len() ==> #[trigger] s[i] < 10 && s[i] != x,
    ensures
        s.len() < 10,
{
    let t = s.map_values(|v: usize| v as int);
    assert(t.no_duplicates()) by {
        assert forall|i: int, j: int| 0 <= i < t.len() && 0 <= j < t.len() && i != j implies t[i] != t[j] by {
            assert(s[i] != s[j]);
        }
    }
    t.unique_seq_to_set();
    let r = vstd::set_lib::set_int_range(0, 10).remove(x as int);
    vstd::set_lib::lemma_int_range(0, 10);
    assert forall|v: int| t.to_set().contains(v) implies r.contains(v) by {
        let i = choose|i: int| 0 <= i < t.len() && t[i] == v;
        assert(s[i] < 10 && s[i] != x);
    }
    vstd::set_lib::lemma_len_subset(t.to_set(), r);
}

impl TokenInterfaceInference {
    /// What the pass keeps true: the functions seen are distinct interface functions, so at
    /// most ten, and each has at most one span: no more spans than functions seen.
    pub open spec fn wf(&self) -> bool {
        &&& self.detected_canonical_functions@.no_duplicates()
        &&& forall|i: int| 0 <= i < self.detected_canonical_functions@.len()
            ==> #[trigger] self.detected_canonical_functions@[i] < 10
        &&& self.funcs_spans@.len() <= self.detected_canonical_functions@.len() <= 10
    }

    /// Nothing gathered.
    pub fn new() -> (r: TokenInterfaceInference)
        ensures
            r.wf(),
            !r.impl_token_interface_trait,
            r.detected_canonical_functions@.len() == 0,
            r.funcs_spans@.len() == 0,
    {
        TokenInterfaceInference { impl_token_interface_trait: false, detected_canonical_functions: Vec::new(), funcs_spans: Vec::new() }
    }

    /// An impl of the trait at path `trait_path` (when it has one): the token interface is
    /// implemented when the path is `soroban_sdk::token::TokenInterface`.
    pub fn check_item(&mut self, trait_path: Option<&str>)
        ensures
            old(self).wf() ==> final(self).wf(),
            final(self).impl_token_interface_trait == (old(self).impl_token_interface_trait
                || (trait_path is Some && trait_path->0@ == "soroban_sdk::token::TokenInterface"@)),
            final(self).detected_canonical_functions == old(self).detected_canonical_functions,
            final(self).funcs_spans == old(self).funcs_spans,
    {
        if let Some(p) = trait_path {
            if str_eq(p, "soroban_sdk::token::TokenInterface") {
                self.impl_token_interface_trait = true;
            }
        }
    }

    /// A function named `fn_name`, whose name is at `fn_name_span` when it is known: one that
    /// resembles an interface function not seen before records it, with its name's span.
    pub fn check_fn(&mut self, from_expansion: bool, fn_name: &str, fn_name_span: Option<Span>)
        requires
            old(self).wf(),
        ensures
            final(self).wf(),
            final(self).impl_token_interface_trait == old(self).impl_token_interface_trait,
            ({
                let found = first_similar(formatted_name(fn_name@));
                if from_expansion || found is None || old(self).detected_canonical_functions@.contains(found->0 as usize) {
                    final(self).detected_canonical_functions@ == old(self).detected_canonical_functions@
                        && final(self).funcs_spans@ == old(self).funcs_spans@
                } else {
                    final(self).detected_canonical_functions@ == old(self).detected_canonical_functions@.push(found->0 as usize)
                        && final(self).funcs_spans@ == match fn_name_span {
                            Some(sp) => old(self).funcs_spans@.push(sp),
                            None => old(self).funcs_spans@,
                        }
                }
            }),
    {
        if from_expansion {
            return;
        }
        if let Some(canonical) = verify_token_interface_function_similarity(fn_name) {
            let mut seen = false;
            let mut k: usize = 0;
            while k < self.detected_canonical_functions.len()
                invariant
                    k <= self.detected_canonical_functions@.len(),
                    seen == exists|j: int| 0 <= j < k && self.detected_canonical_functions@[j] == canonical,
                decreases self.detected_canonical_functions@.len() - k,
            {
                if self.detected_canonical_functions[k] == canonical {
                    seen = true;
                }
                k = k + 1;
            }
            if !seen {
                proof {
                    lemma_fewer_than_ten(self.detected_canonical_functions@, canonical);
                }
                self.detected_canonical_functions.push(canonical);
                if let Some(span) = fn_name_span {
                    self.funcs_spans.push(span);
                }
            }
        }
    }

    /// The spans to report at the end of the crate: none when the interface is implemented or
    /// fewer than the threshold share of its functions was seen; else every recorded span.
    pub fn check_crate_post(&self) -> (r: Option<Vec<Span>>)
        requires
            self.detected_canonical_functions@.len() * 100 <= usize::MAX,
        ensures
            if self.impl_token_interface_trait || self.detected_canonical_functions@.len() * 100 < 10 * 60 {
                r is None
            } else {
                r matches Some(v) && v@ == self.funcs_spans@
            },
    {
        if self.impl_token_interface_trait {
            return None;
        }
        if self.detected_canonical_functions.len() * 100 >= 10 * INCLUDED_FUNCTIONS_THRESHOLD {
            let mut v: Vec<Span> = Vec::new();
            let mut i: usize = 0;
            while i < self.funcs_spans.len()
                invariant
                    i <= self.funcs_spans@.len(),
                    v@ == self.funcs_spans@.take(i as int),
                decreases self.funcs_spans@.len() - i,
            {
                v.push(self.funcs_spans[i]);
                assert(v@ =~= self.funcs_spans@.take(i + 1));
                i = i + 1;
            }
            assert(self.funcs_spans@.take(self.funcs_spans@.len() as int) =~= self.funcs_spans@);
            Some(v)
        } else {
            None
        }
    }
}

} // verus!
