//! Character-level operations on tokens: conversion, substring search,
//! wildcard patterns and message assembly.
use vstd::prelude::*;
use vstd::string::*;

verus! {

/// `p` occurs in `t` starting at character position `i`.
pub open spec fn occurs_at(t: Seq<char>, p: Seq<char>, i: int) -> bool {
    0 <= i && i + p.len() <= t.len() && t.subrange(i, i + p.len()) == p
}

/// `p` is a contiguous substring of `t`.
pub open spec fn contains_seq(t: Seq<char>, p: Seq<char>) -> bool {
    exists|i: int| occurs_at(t, p, i)
}

/// Wildcard match of a whole text: `*` stands for any run of characters
/// (possibly empty), `?` for exactly one character, any other character
/// for itself.
pub open spec fn glob(p: Seq<char>, t: Seq<char>) -> bool
    decreases p.len() + t.len(),
{
    if p.len() == 0 {
        t.len() == 0
    } else if p[0] == '*' {
        glob(p.drop_first(), t) || (t.len() > 0 && glob(p, t.drop_first()))
    } else {
        t.len() > 0 && (p[0] == '?' || p[0] == t[0]) && glob(p.drop_first(), t.drop_first())
    }
}

/// The characters of `s`, in order.
pub fn chars_of(s: &str) -> (r: Vec<char>)
    ensures
        r@ == s@,
{
    let mut r: Vec<char> = Vec::new();
    for c in it: s.chars()
        invariant
            it.seq() == s@,
            r@ == it.seq().subrange(0, it.index() as int),
    {
        r.push(c);
        assert(r@ =~= it.seq().subrange(0, it.index() + 1));
    }
    assert(r@ =~= s@);
    r
}

/// Whether two character sequences are equal.
pub fn same_chars(a: &Vec<char>, b: &Vec<char>) -> (r: bool)
    ensures
        r == (a@ == b@),
{
    if a.len() != b.len() {
        return false;
    }
    let mut i: usize = 0;
    while i < a.len()
        invariant
            a@.len() == b@.len(),
            i <= a@.len(),
            forall|k: int| 0 <= k < i ==> a@[k] == b@[k],
        decreases a@.len() - i,
    {
        if a[i] != b[i] {
            return false;
        }
        i += 1;
    }
    assert(a@ =~= b@);
    true
}

fn occurs_here(t: &Vec<char>, p: &Vec<char>, i: usize) -> (r: bool)
    requires
        i + p@.len() <= t@.len(),
    ensures
        r == occurs_at(t@, p@, i as int),
{
    let n = t.len();
    let mut j: usize = 0;
    while j < p.len()
        invariant
            n == t@.len(),
            i + p@.len() <= t@.len(),
            j <= p@.len(),
            forall|k: int| 0 <= k < j ==> t@[i + k] == p@[k],
        decreases p@.len() - j,
    {
        if t[i + j] != p[j] {
            assert(t@.subrange(i as int, i + p@.len())[j as int] != p@[j as int]);
            return false;
        }
        j += 1;
    }
    assert(t@.subrange(i as int, i + p@.len()) =~= p@);
    true
}

/// Whether `p` occurs in `t` as a contiguous run of characters.
pub fn contains_chars(t: &Vec<char>, p: &Vec<char>) -> (r: bool)
    ensures
        r == contains_seq(t@, p@),
{
    if p.len() > t.len() {
        assert forall|k: int| !occurs_at(t@, p@, k) by {}
        return false;
    }
    let last = t.len() - p.len();
    let mut i: usize = 0;
    loop
        invariant
            last + p@.len() == t@.len(),
            i <= last,
            forall|k: int| 0 <= k < i ==> !occurs_at(t@, p@, k),
        decreases last - i,
    {
        if occurs_here(t, p, i) {
            return true;
        }
        if i == last {
            assert forall|k: int| !occurs_at(t@, p@, k) by {
                if 0 <= k && k + p@.len() <= t@.len() {
                    assert(k <= i);
                }
            }
            return false;
        }
        i += 1;
    }
}

/// The characters of `s` from position `k` on.
pub open spec fn suffix(s: Seq<char>, k: int) -> Seq<char> {
    s.subrange(k, s.len() as int)
}

proof fn lemma_suffix_step(s: Seq<char>, k: int)
    requires
        0 <= k < s.len(),
    ensures
        suffix(s, k).drop_first() == suffix(s, k + 1),
        suffix(s, k).len() > 0,
        suffix(s, k)[0] == s[k],
{
    assert(suffix(s, k).drop_first() =~= suffix(s, k + 1));
}

/// Whether the whole of `t` matches the wildcard pattern `p`. The table is
/// filled one pattern position at a time, from the end: `row[j]` tells
/// whether the pattern from position `i` matches the text from position `j`,
/// and `at_end` whether it matches the empty rest of the text.
pub fn glob_matches(p: &Vec<char>, t: &Vec<char>) -> (r: bool)
    ensures
        r == glob(p@, t@),
{
    let n = t.len();
    let m = p.len();
    let mut row: Vec<bool> = Vec::new();
    let mut j: usize = 0;
    while j < n
        invariant
            n == t@.len(),
            m == p@.len(),
            j <= n,
            row@.len() == j,
            forall|k: int| 0 <= k < j ==> row@[k] == glob(suffix(p@, m as int), #[trigger] suffix(t@, k)),
        decreases n - j,
    {
        proof {
            lemma_suffix_step(t@, j as int);
            assert(suffix(p@, m as int).len() == 0);
        }
        row.push(false);
        j += 1;
    }
    let mut at_end = true;
    assert(suffix(p@, m as int).len() == 0 && suffix(t@, n as int).len() == 0);
    let mut i: usize = m;
    while i > 0
        invariant
            n == t@.len(),
            m == p@.len(),
            i <= m,
            row@.len() == n,
            at_end == glob(suffix(p@, i as int), suffix(t@, n as int)),
            forall|k: int| 0 <= k < n ==> row@[k] == glob(suffix(p@, i as int), #[trigger] suffix(t@, k)),
        decreases i,
    {
        i -= 1;
        let c = p[i];
        proof {
            lemma_suffix_step(p@, i as int);
            assert(suffix(t@, n as int).len() == 0);
        }
        let new_end = c == '*' && at_end;
        let mut k: usize = n;
        let mut right = new_end;
        let mut diag = at_end;
        while k > 0
            invariant
                n == t@.len(),
                m == p@.len(),
                i < m,
                c == p@[i as int],
                k <= n,
                row@.len() == n,
                at_end == glob(suffix(p@, i + 1), suffix(t@, n as int)),
                right == glob(suffix(p@, i as int), suffix(t@, k as int)),
                diag == glob(suffix(p@, i + 1), suffix(t@, k as int)),
                forall|q: int| 0 <= q < k ==> row@[q] == glob(suffix(p@, i + 1), #[trigger] suffix(t@, q)),
                forall|q: int| k <= q < n ==> row@[q] == glob(suffix(p@, i as int), #[trigger] suffix(t@, q)),
            decreases k,
        {
            k -= 1;
            proof {
                lemma_suffix_step(t@, k as int);
                lemma_suffix_step(p@, i as int);
            }
            let below = row[k];
            let v = if c == '*' {
                below || right
            } else {
                (c == '?' || c == t[k]) && diag
            };
            row.set(k, v);
            right = v;
            diag = below;
        }
        at_end = new_end;
    }
    assert(suffix(p@, 0) =~= p@);
    assert(suffix(t@, 0) =~= t@);
    if n == 0 {
        at_end
    } else {
        row[0]
    }
}

/// `head` followed by `tail`, as a new string.
pub fn joined(head: &str, tail: &str) -> (r: String)
    ensures
        r@ == head@ + tail@,
{
    let mut r = String::from_str(head);
    r.append(tail);
    r
}

} // verus!
