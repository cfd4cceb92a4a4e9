//! The parts of the syntax tree, before expansion, that the early passes read.
use vstd::prelude::*;
use crate::hir::{Span, span_contains, contains};
use crate::text::str_eq;

verus! {

/// A token.
pub enum Token {
    /// An identifier, raw or not, by its name.
    Ident(String),
    /// A plain string literal, by its text between the quotes.
    StrLit(String),
    /// Any other token.
    Other,
}

/// A token tree of an attribute's or a macro's arguments.
pub enum TokenTree {
    /// A single token.
    Token(Token),
    /// A delimited group of tokens.
    Delimited,
}

/// The arguments of an attribute.
pub enum AttrArgs {
    /// No arguments.
    Empty,
    /// Delimited arguments, `#[attr(...)]`, as their top-level tokens.
    Delimited(Vec<TokenTree>),
    /// `#[attr = value]`.
    Eq,
}

/// An attribute of an item.
pub struct Attribute {
    /// The attribute's name, when its path is a single identifier.
    pub name: Option<String>,
    /// The names of the nested meta items, when the attribute is a meta list.
    pub meta_list: Option<Vec<String>>,
    /// The arguments; a doc comment has none.
    pub args: AttrArgs,
}

/// An item, by what the pass reads of it.
pub struct Item {
    pub attrs: Vec<Attribute>,
    pub span: Span,
}

/// A macro invocation.
pub struct MacCall {
    /// The segments of the macro's path.
    pub path: Vec<String>,
    /// The top-level token trees of its arguments.
    pub args: Vec<TokenTree>,
    pub span: Span,
}

/// The token is the identifier `test`.
pub open spec fn is_test_token(t: TokenTree) -> bool {
    match t {
        TokenTree::Token(Token::Ident(name)) => name@ == "test"@,
        _ => false,
    }
}

/// The optional name is `s`.
pub open spec fn name_is(n: Option<String>, s: Seq<char>) -> bool {
    match n {
        Some(n) => n@ == s,
        None => false,
    }
}

/// The optional list of names holds `test`.
pub open spec fn list_names_test(l: Option<Vec<String>>) -> bool {
    match l {
        Some(l) => exists|j: int| 0 <= j < l@.len() && (#[trigger] l@[j])@ == "test"@,
        None => false,
    }
}

/// The arguments hold, at top level, the identifier `test`.
pub open spec fn spec_test_token_present(args: AttrArgs) -> bool {
    match args {
        AttrArgs::Delimited(ts) => exists|i: int| 0 <= i < ts@.len() && is_test_token(#[trigger] ts@[i]),
        _ => false,
    }
}

/// The attribute marks a test: `#[test]`, a `cfg` whose list names `test`, or arguments
/// holding the identifier `test`.
pub open spec fn spec_test_attr(a: Attribute) -> bool {
    ||| name_is(a.name, "test"@)
    ||| (name_is(a.name, "cfg"@) && list_names_test(a.meta_list))
    ||| spec_test_token_present(a.args)
}

/// The item carries a test attribute.
pub open spec fn spec_test_item(item: Item) -> bool {
    exists|i: int| 0 <= i < item.attrs@.len() && spec_test_attr(#[trigger] item.attrs@[i])
}


/// Some span of `spans` contains `span`.
pub open spec fn within_any(spans: Seq<Span>, span: Span) -> bool {
exists|i: int| 0 <= i < spans.len() && span_contains(#[trigger] spans[i], span)
}

/// Whether some span of `spans` contains `span`.
pub fn is_within_any(spans: &Vec<Span>, span: Span) -> (r: bool)
ensures
    r == within_any(spans@, span),
{
let mut i: usize = 0;
while i < spans.len()
    invariant
        i <= spans@.len(),
        forall|j: int| 0 <= j < i ==> !span_contains(#[trigger] spans@[j], span),
    decreases spans@.len() - i,
{
    if contains(spans[i], span) {
        return true;
    }
    i = i + 1;
}
false
}

/// Whether the arguments hold, at top level, the identifier `test`.
#[verifier::loop_isolation(false)]
pub fn is_test_token_present(args: &AttrArgs) -> (r: bool)
    ensures
        r == spec_test_token_present(*args),
{
    match args {
        AttrArgs::Delimited(ts) => {
            let mut i: usize = 0;
            while i < ts.len()
                invariant
                    i <= ts@.len(),
                    forall|j: int| 0 <= j < i ==> !is_test_token(#[trigger] ts@[j]),
                decreases ts@.len() - i,
            {
                if let TokenTree::Token(Token::Ident(name)) = &ts[i] {
                    if str_eq(name.as_str(), "test") {
                        assert(is_test_token(ts@[i as int]));
                        return true;
                    }
                }
                i = i + 1;
            }
            false
        },
        _ => false,
    }
}

#[verifier::loop_isolation(false)]
fn is_test_attr(a: &Attribute) -> (r: bool)
    ensures
        r == spec_test_attr(*a),
{
    if let Some(n) = &a.name {
        if str_eq(n.as_str(), "test") {
            return true;
        }
        if str_eq(n.as_str(), "cfg") {
            if let Some(l) = &a.meta_list {
                let mut j: usize = 0;
                while j < l.len()
                    invariant
                        j <= l@.len(),
                        forall|k: int| 0 <= k < j ==> (#[trigger] l@[k])@ != "test"@,
                    decreases l@.len() - j,
                {
                    if str_eq(l[j].as_str(), "test") {
                        assert(l@[j as int]@ == "test"@);
                        return true;
                    }
                    j = j + 1;
                }
            }
        }
    }
    is_test_token_present(&a.args)
}

/// Whether the item carries a test attribute.
pub fn is_test_item(item: &Item) -> (r: bool)
    ensures
        r == spec_test_item(*item),
{
    let mut i: usize = 0;
    while i < item.attrs.len()
        invariant
            i <= item.attrs@.len(),
            forall|j: int| 0 <= j < i ==> !spec_test_attr(#[trigger] item.attrs@[j]),
        decreases item.attrs@.len() - i,
    {
        if is_test_attr(&item.attrs[i]) {
            return true;
        }
        i = i + 1;
    }
    false
}


} // verus!
