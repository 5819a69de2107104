//! Character-level helpers shared by the link grammars.
use vstd::prelude::*;

verus! {

/// `lit` occurs in `t` starting at position `i`.
pub open spec fn occurs_at(t: Seq<char>, i: int, lit: Seq<char>) -> bool {
    &&& 0 <= i
    &&& i + lit.len() <= t.len()
    &&& t.subrange(i, i + lit.len()) == lit
}

/// The characters of `s`, one element each.
pub fn chars_of(s: &str) -> (r: Vec<char>)
    ensures
        r@ == s@,
{
    let mut r: Vec<char> = Vec::new();
    for c in it: s.chars()
        invariant
            it.seq() == s@,
            r@ == it.seq().take(it.index() as int),
    {
        r.push(c);
        assert(r@ =~= it.seq().take(it.index() + 1));
    }
    assert(r@ =~= s@);
    r
}

/// `t[i..]` is `lit` followed by `rest` exactly when `lit` occurs at `i`
/// and `rest` is what follows it.
pub proof fn lemma_split_at(t: Seq<char>, i: int, lit: Seq<char>, rest: Seq<char>)
    requires
        0 <= i <= t.len(),
    ensures
        t.subrange(i, t.len() as int) == lit + rest <==> (occurs_at(t, i, lit) && t.subrange(
            i + lit.len(),
            t.len() as int,
        ) == rest),
{
    if t.subrange(i, t.len() as int) == lit + rest {
        let s = t.subrange(i, t.len() as int);
        assert(s.len() == lit.len() + rest.len());
        assert forall|k: int| 0 <= k < rest.len() implies t[i + lit.len() + k] == rest[k] by {
            assert(s[lit.len() + k] == (lit + rest)[lit.len() + k]);
        }
        assert forall|k: int| 0 <= k < lit.len() implies t[i + k] == lit[k] by {
            assert(s[k] == (lit + rest)[k]);
        }
        assert(t.subrange(i, i + lit.len()) =~= lit);
        assert(t.subrange(i + lit.len(), t.len() as int) =~= rest);
    }
    if occurs_at(t, i, lit) && t.subrange(i + lit.len(), t.len() as int) == rest {
        assert(t.subrange(i, t.len() as int) =~= lit + rest);
    }
}

/// `lit` occurs in a suffix of `t` where it occurs in `t` at the
/// corresponding position.
pub proof fn lemma_occurs_in_suffix(t: Seq<char>, p: int, k: int, lit: Seq<char>)
    requires
        0 <= p <= t.len(),
        0 <= k,
    ensures
        occurs_at(t.subrange(p, t.len() as int), k, lit) <==> occurs_at(t, p + k, lit),
{
    let s = t.subrange(p, t.len() as int);
    if k + lit.len() <= s.len() {
        assert(s.subrange(k, k + lit.len()) =~= t.subrange(p + k, p + k + lit.len()));
    }
}

/// Whether `lit` occurs in `t` starting at position `i`.
pub fn occurs_at_exec(t: &Vec<char>, i: usize, lit: &Vec<char>) -> (r: bool)
    ensures
        r == occurs_at(t@, i as int, lit@),
{
    if i > t.len() || lit.len() > t.len() - i {
        return false;
    }
    let mut k: usize = 0;
    while k < lit.len()
        invariant
            i + lit.len() <= t.len(),
            k <= lit@.len(),
            forall|m: int| 0 <= m < k ==> t@[i + m] == lit@[m],
        decreases lit@.len() - k,
    {
        if t[i + k] != lit[k] {
            assert(t@.subrange(i as int, i + lit@.len())[k as int] != lit@[k as int]);
            return false;
        }
        k = k + 1;
    }
    assert(t@.subrange(i as int, i + lit@.len()) =~= lit@);
    true
}

/// Position of the first `'/'` in `t` at or after `from`, or the length of
/// `t` where there is none.
pub fn first_slash(t: &Vec<char>, from: usize) -> (e: usize)
    requires
        from <= t@.len(),
    ensures
        from <= e <= t@.len(),
        forall|k: int| from <= k < e ==> t@[k] != '/',
        e < t@.len() ==> t@[e as int] == '/',
{
    let mut e = from;
    while e < t.len() && t[e] != '/'
        invariant
            from <= e <= t@.len(),
            forall|k: int| from <= k < e ==> t@[k] != '/',
        decreases t@.len() - e,
    {
        e = e + 1;
    }
    e
}

/// Where `t[start..]` is a slash-free `a` followed by a text `r` that starts
/// with a slash, the first slash from `start` on ends `a`.
pub proof fn lemma_first_slash_ends(t: Seq<char>, start: int, e: int, a: Seq<char>, r: Seq<char>)
    requires
        0 <= start <= e <= t.len(),
        t.subrange(start, t.len() as int) == a + r,
        !a.contains('/'),
        r.len() > 0,
        r[0] == '/',
        forall|k: int| start <= k < e ==> t[k] != '/',
        e < t.len() ==> t[e] == '/',
    ensures
        e == start + a.len(),
{
    let s = t.subrange(start, t.len() as int);
    assert(s.len() == a.len() + r.len());
    assert((a + r)[a.len() as int] == r[0]);
    assert(t[start + a.len()] == s[a.len() as int]);
    if e < start + a.len() {
        assert(s[e - start] == a[e - start]);
        assert(a.contains(a[e - start]));
    }
}

/// A text splits in at most one way into a slash-free part and a rest that
/// starts with a slash.
pub proof fn lemma_slash_split_unique(s: Seq<char>, a1: Seq<char>, r1: Seq<char>, a2: Seq<char>, r2: Seq<char>)
    requires
        s == a1 + r1,
        s == a2 + r2,
        !a1.contains('/'),
        !a2.contains('/'),
        r1.len() > 0 && r1[0] == '/',
        r2.len() > 0 && r2[0] == '/',
    ensures
        a1 == a2,
        r1 == r2,
{
    if a1.len() < a2.len() {
        assert(s[a1.len() as int] == '/');
        assert(a2.contains(s[a1.len() as int]));
    } else if a2.len() < a1.len() {
        assert(s[a2.len() as int] == '/');
        assert(a1.contains(s[a2.len() as int]));
    }
    assert(a1 =~= s.subrange(0, a1.len() as int));
    assert(a2 =~= s.subrange(0, a2.len() as int));
    assert(r1 =~= s.subrange(a1.len() as int, s.len() as int));
    assert(r2 =~= s.subrange(a2.len() as int, s.len() as int));
}

} // verus!
