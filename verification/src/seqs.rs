use vstd::prelude::*;

verus! {

/// The elements of the first `i + 1` items are those of the first `i` and item `i`.
pub proof fn lemma_prefix_to_set_step<A>(s: Seq<A>, i: int)
    requires
        0 <= i < s.len(),
    ensures
        s.subrange(0, i + 1).to_set() == s.subrange(0, i).to_set().insert(s[i]),
{
    assert(s.subrange(0, i + 1) =~= s.subrange(0, i).push(s[i]));
    s.subrange(0, i).lemma_push_to_set_commute(s[i]);
}

/// Pushing an element adds it to the set of elements.
pub proof fn lemma_push_to_set<A>(s: Seq<A>, x: A)
    ensures
        s.push(x).to_set() == s.to_set().insert(x),
{
    s.lemma_push_to_set_commute(x);
}

/// An element is in a sequence with one more item exactly when it is in the sequence or is
/// that item.
pub proof fn lemma_contains_push<A>(s: Seq<A>, x: A, d: A)
    ensures
        s.push(x).contains(d) == (s.contains(d) || d == x),
{
    if s.contains(d) {
        let w = choose|w: int| 0 <= w < s.len() && s[w] == d;
        assert(s.push(x)[w] == d);
    }
    if d == x {
        assert(s.push(x)[s.len() as int] == d);
    }
    if s.push(x).contains(d) {
        let w = choose|w: int| 0 <= w < s.len() + 1 && s.push(x)[w] == d;
        if w < s.len() {
            assert(s[w] == d);
        }
    }
}

/// The first `i + 1` items are the first `i` and item `i`.
pub proof fn lemma_take_succ<A>(s: Seq<A>, i: int)
    requires
        0 <= i < s.len(),
    ensures
        s.take(i + 1) == s.take(i).push(s[i]),
{
    assert(s.take(i + 1) =~= s.take(i).push(s[i]));
}

/// `r` begins with `s`: it keeps every item of `s` in place.
pub open spec fn extends<A>(s: Seq<A>, r: Seq<A>) -> bool {
    s.len() <= r.len() && forall|i: int| 0 <= i < s.len() ==> r[i] == s[i]
}

/// What a sequence holds, one that begins with it holds too.
pub proof fn lemma_extends_contains<A>(s: Seq<A>, r: Seq<A>, v: A)
    requires
        extends(s, r),
        s.contains(v),
    ensures
        r.contains(v),
{
    let i = choose|i: int| 0 <= i < s.len() && s[i] == v;
    assert(r[i] == v);
}

/// A sequence that begins with one that begins with `s` begins with `s`.
pub proof fn lemma_extends_trans<A>(s: Seq<A>, r: Seq<A>, q: Seq<A>)
    requires
        extends(s, r),
        extends(r, q),
    ensures
        extends(s, q),
{
    assert forall|i: int| 0 <= i < s.len() implies q[i] == s[i] by {
        assert(r[i] == s[i]);
    }
}

} // verus!
