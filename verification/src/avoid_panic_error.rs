//! `panic!` in functions that return `Result`: such a `panic!` outside test items is
//! reported.
use vstd::prelude::*;
use crate::hir::{Span, span_contains};
use crate::ast::{Item, MacCall, spec_test_item, within_any, is_within_any, is_test_item};
use crate::text::str_eq;

verus! {

/// The macro's path is the single segment `panic`.
pub open spec fn spec_is_panic(mac: MacCall) -> bool {
    mac.path@.len() == 1 && mac.path@[0]@ == "panic"@
}

/// The lint pass: the spans of the test items seen so far.
pub struct AvoidPanicError {
    pub test_spans: Vec<Span>,
}

impl AvoidPanicError {
    /// A pass that has seen no test item.
    pub fn new() -> (r: Self)
        ensures
            r.test_spans@ == Seq::<Span>::empty(),
    {
        AvoidPanicError { test_spans: Vec::new() }
    }

    /// Visits an item: a test item's span is remembered.
    pub fn check_item(&mut self, item: &Item)
        ensures
            final(self).test_spans@ == if spec_test_item(*item) {
                old(self).test_spans@.push(item.span)
            } else {
                old(self).test_spans@
            },
    {
        if is_test_item(item) {
            self.test_spans.push(item.span);
        }
    }

    /// Visits a macro invocation: the span to report, for a `panic!` outside every test item
    /// seen so far, in a function that returns a `Result` (`in_result_fn` says whether the
    /// function that holds the invocation does).
    pub fn check_mac(&self, mac: &MacCall, in_result_fn: bool) -> (r: Option<Span>)
        ensures
            r == if spec_is_panic(*mac) && in_result_fn && !within_any(self.test_spans@, mac.span) {
                Some(mac.span)
            } else {
                None::<Span>
            },
    {
        if !(mac.path.len() == 1 && str_eq(mac.path[0].as_str(), "panic")) {
            return None;
        }
        if !in_result_fn {
            return None;
        }
        if is_within_any(&self.test_spans, mac.span) {
            return None;
        }
        Some(mac.span)
    }
}


/// A `panic!` inside an item that the pass has seen as a test item is not reported; one
/// outside every test item is.
pub proof fn law_panic_in_test_item_not_reported(test_spans: Seq<Span>, item: Item, mac: MacCall)
    requires
        spec_test_item(item),
        span_contains(item.span, mac.span),
    ensures
        within_any(test_spans.push(item.span), mac.span),
{
    assert(test_spans.push(item.span)[test_spans.len() as int] == item.span);
}

} // verus!
