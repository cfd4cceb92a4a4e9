use vstd::prelude::*;
use crate::text::{str_ends_with, seq_ends_with};
use crate::hir::Span;

verus! {

/// A function path names an initialization function `init` or `initialize`, other than the
/// one of a generated contract client.
pub open spec fn spec_is_relevant_function(name: Seq<char>) -> bool {
    (seq_ends_with(name, "::init"@) && !seq_ends_with(name, "Client::<'a>::init"@))
    || (seq_ends_with(name, "::initialize"@) && !seq_ends_with(name, "Client::<'a>::initialize"@))
}

/// Whether the function with path `name` is an initialization function that should be a
/// constructor.
pub fn is_relevant_function(name: &str) -> (r: bool)
    ensures
        r == spec_is_relevant_function(name@),
{
    if str_ends_with(name, "::init") && !str_ends_with(name, "Client::<'a>::init") {
        return true;
    }
    if str_ends_with(name, "::initialize") && !str_ends_with(name, "Client::<'a>::initialize") {
        return true;
    }
    false
}


/// The lint pass.
pub struct InitInsteadOfConstructor;

impl InitInsteadOfConstructor {
    /// Checks the function whose definition path is `fn_name`: an initialization function is
    /// reported at its span.
    pub fn check_fn(&self, fn_name: &str, span: Span) -> (r: Option<Span>)
        ensures
            r == if spec_is_relevant_function(fn_name@) { Some(span) } else { None::<Span> },
    {
        if !is_relevant_function(fn_name) {
            return None;
        }
        Some(span)
    }
}

} // verus!
