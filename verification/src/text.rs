use vstd::prelude::*;

verus! {

/// `suffix` is a suffix of `s`.
pub open spec fn seq_ends_with(s: Seq<char>, suffix: Seq<char>) -> bool {
    suffix.len() <= s.len() && s.subrange(s.len() - suffix.len(), s.len() as int) == suffix
}

/// `prefix` is a prefix of `s`.
pub open spec fn seq_starts_with(s: Seq<char>, prefix: Seq<char>) -> bool {
    prefix.len() <= s.len() && s.subrange(0, prefix.len() as int) == prefix
}

/// `pat` occurs in `s` starting at position `i`.
pub open spec fn occurs_at(s: Seq<char>, pat: Seq<char>, i: int) -> bool {
    0 <= i && i + pat.len() <= s.len() && s.subrange(i, i + pat.len()) == pat
}

/// `pat` occurs somewhere in `s`.
pub open spec fn seq_contains(s: Seq<char>, pat: Seq<char>) -> bool {
    exists|i: int| occurs_at(s, pat, i)
}

/// Whether two strings hold the same characters.
pub fn str_eq(a: &str, b: &str) -> (r: bool)
    ensures
        r == (a@ == b@),
{
    let n = a.unicode_len();
    if n != b.unicode_len() {
        return false;
    }
    let mut i: usize = 0;
    while i < n
        invariant
            n == a@.len(),
            n == b@.len(),
            i <= n,
            forall|j: int| 0 <= j < i ==> a@[j] == b@[j],
        decreases n - i,
    {
        if a.get_char(i) != b.get_char(i) {
            return false;
        }
        i = i + 1;
    }
    assert(a@ =~= b@);
    true
}

/// Whether `pat` occurs in `s` at character position `start`.
pub fn occurs_at_exec(s: &str, pat: &str, start: usize) -> (r: bool)
    ensures
        r == occurs_at(s@, pat@, start as int),
{
    let n = s.unicode_len();
    let m = pat.unicode_len();
    if start > n || m > n - start {
        return false;
    }
    let mut j: usize = 0;
    while j < m
        invariant
            n == s@.len(),
            m == pat@.len(),
            start + m <= n,
            j <= m,
            forall|k: int| 0 <= k < j ==> s@[start + k] == pat@[k],
        decreases m - j,
    {
        if s.get_char(start + j) != pat.get_char(j) {
            assert(s@.subrange(start as int, start + m)[j as int] != pat@[j as int]);
            return false;
        }
        j = j + 1;
    }
    assert(s@.subrange(start as int, start + m) =~= pat@);
    true
}

/// Whether `suffix` is a suffix of `s`.
pub fn str_ends_with(s: &str, suffix: &str) -> (r: bool)
    ensures
        r == seq_ends_with(s@, suffix@),
{
    let n = s.unicode_len();
    let m = suffix.unicode_len();
    if m > n {
        return false;
    }
    occurs_at_exec(s, suffix, n - m)
}

/// Whether `prefix` is a prefix of `s`.
pub fn str_starts_with(s: &str, prefix: &str) -> (r: bool)
    ensures
        r == seq_starts_with(s@, prefix@),
{
    occurs_at_exec(s, prefix, 0)
}

/// Whether `pat` occurs in `s`.
pub fn str_contains(s: &str, pat: &str) -> (r: bool)
    ensures
        r == seq_contains(s@, pat@),
{
    let n = s.unicode_len();
    let m = pat.unicode_len();
    if m > n {
        assert(!seq_contains(s@, pat@));
        return false;
    }
    let mut i: usize = 0;
    loop
        invariant
            n == s@.len(),
            m == pat@.len(),
            m <= n,
            i <= n - m,
            forall|k: int| 0 <= k < i ==> !occurs_at(s@, pat@, k),
        ensures
            forall|k: int| 0 <= k <= n - m ==> !occurs_at(s@, pat@, k),
        decreases n - m - i,
    {
        if occurs_at_exec(s, pat, i) {
            return true;
        }
        if i == n - m {
            break;
        }
        i = i + 1;
    }
    assert forall|k: int| !occurs_at(s@, pat@, k) by {
        if 0 <= k <= n - m {
        }
    }
    false
}

/// Some string of `v` is `x`.
pub open spec fn names_contain(v: Seq<String>, x: Seq<char>) -> bool {
    exists|i: int| 0 <= i < v.len() && (#[trigger] v[i])@ == x
}

/// Adds `s` to a list of names, unless it holds it already.
pub fn push_name(r: &mut Vec<String>, s: &str)
    ensures
        forall|x: Seq<char>| names_contain(final(r)@, x) <==> (names_contain(old(r)@, x) || x == s@),
{
    let mut i: usize = 0;
    while i < r.len()
        invariant
            i <= r@.len(),
            forall|j: int| 0 <= j < i ==> (#[trigger] r@[j])@ != s@,
        decreases r@.len() - i,
    {
        if str_eq(r[i].as_str(), s) {
            return;
        }
        i = i + 1;
    }
    let ghost old_r = r@;
    r.push(String::from_str(s));
    assert forall|x: Seq<char>| names_contain(r@, x) <==> (names_contain(old_r, x) || x == s@) by {
        if names_contain(old_r, x) {
            let w = choose|w: int| 0 <= w < old_r.len() && (#[trigger] old_r[w])@ == x;
            assert(r@[w] == old_r[w]);
        }
        if x == s@ {
            assert(r@[old_r.len() as int]@ == x);
        }
        if names_contain(r@, x) {
            let w = choose|w: int| 0 <= w < r@.len() && (#[trigger] r@[w])@ == x;
            if w < old_r.len() {
                assert(old_r[w] == r@[w]);
            }
        }
    }
}

} // verus!
