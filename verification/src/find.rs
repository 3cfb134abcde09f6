//! Searching and sifting sequences.

use vstd::prelude::*;

verus! {

/// The first place where `p` holds, or the length of `s` where it never does.
pub open spec fn first_where<T>(s: Seq<T>, p: spec_fn(T) -> bool) -> int
    decreases s.len(),
{
    if s.len() == 0 {
        0
    } else if p(s[0]) {
        0
    } else {
        1 + first_where(s.drop_first(), p)
    }
}

/// A place is the first where `p` holds when it holds nowhere before it, and
/// holds there or there is nothing there.
pub proof fn first_where_is<T>(s: Seq<T>, p: spec_fn(T) -> bool, at: int)
    requires
        0 <= at <= s.len(),
        forall|j: int| 0 <= j < at ==> !p(#[trigger] s[j]),
        at < s.len() ==> p(s[at]),
    ensures
        first_where(s, p) == at,
    decreases s.len(),
{
    if s.len() > 0 && at > 0 {
        assert(!p(s[0]));
        assert forall|j: int| 0 <= j < at - 1 implies !p(#[trigger] s.drop_first()[j]) by {
            assert(!p(s[j + 1]));
        }
        first_where_is(s.drop_first(), p, at - 1);
    }
}

/// What [`first_where`] finds is the first place where `p` holds.
pub proof fn first_where_found<T>(s: Seq<T>, p: spec_fn(T) -> bool)
    ensures
        0 <= first_where(s, p) <= s.len(),
        forall|j: int| 0 <= j < first_where(s, p) ==> !p(#[trigger] s[j]),
        first_where(s, p) < s.len() ==> p(s[first_where(s, p)]),
    decreases s.len(),
{
    if s.len() > 0 && !p(s[0]) {
        first_where_found(s.drop_first(), p);
        assert forall|j: int| 0 <= j < first_where(s, p) implies !p(#[trigger] s[j]) by {
            if j > 0 {
                assert(!p(s.drop_first()[j - 1]));
            }
        }
    }
}

/// Sifting one element more.
pub proof fn filter_one_more<T>(s: Seq<T>, p: spec_fn(T) -> bool, n: int)
    requires
        0 <= n < s.len(),
    ensures
        s.take(n + 1).filter(p) == if p(s[n]) {
            s.take(n).filter(p).push(s[n])
        } else {
            s.take(n).filter(p)
        },
{
    reveal(Seq::filter);
    assert(s.take(n + 1).drop_last() == s.take(n));
    assert(s.take(n + 1).last() == s[n]);
}

/// What is left after sifting was there, and passes.
pub proof fn sifted_was_there<T>(s: Seq<T>, p: spec_fn(T) -> bool, i: int)
    requires
        0 <= i < s.filter(p).len(),
    ensures
        s.contains(s.filter(p)[i]),
        p(s.filter(p)[i]),
    decreases s.len(),
{
    reveal(Seq::filter);
    let front = s.drop_last();
    if i < front.filter(p).len() {
        sifted_was_there(front, p, i);
        let k = choose|k: int| 0 <= k < front.len() && front[k] == front.filter(p)[i];
        assert(s[k] == s.filter(p)[i]);
    } else {
        assert(s[s.len() - 1] == s.filter(p)[i]);
    }
}

/// What passes is kept.
pub proof fn sifted_is_kept<T>(s: Seq<T>, p: spec_fn(T) -> bool, x: T)
    requires
        s.contains(x),
        p(x),
    ensures
        s.filter(p).contains(x),
    decreases s.len(),
{
    reveal(Seq::filter);
    let k = choose|k: int| 0 <= k < s.len() && s[k] == x;
    let front = s.drop_last();
    let all = s.filter(p);
    if k < front.len() {
        assert(front[k] == x);
        sifted_is_kept(front, p, x);
        let m = choose|m: int| 0 <= m < front.filter(p).len() && front.filter(p)[m] == x;
        assert(all[m] == x);
    } else {
        assert(all[all.len() - 1] == x);
    }
}

/// Sifting nothing leaves nothing, and all of a sequence is the sequence.
pub proof fn filter_ends<T>(s: Seq<T>, p: spec_fn(T) -> bool)
    ensures
        s.take(0).filter(p) == Seq::<T>::empty(),
        s.take(s.len() as int) == s,
{
    reveal(Seq::filter);
    assert(s.take(0) == Seq::<T>::empty());
    assert(s.take(s.len() as int) == s);
}

/// Some of `v`, from one place up to another.
pub fn copied<S: Copy>(v: &Vec<S>, from: usize, to: usize) -> (out: Vec<S>)
    requires
        from <= to <= v@.len(),
    ensures
        out@ == v@.subrange(from as int, to as int),
{
    let mut out: Vec<S> = Vec::new();
    let mut i: usize = from;
    while i < to
        invariant
            from <= i <= to <= v@.len(),
            out@ == v@.subrange(from as int, i as int),
        decreases to - i,
    {
        out.push(v[i]);
        i += 1;
        assert(v@.subrange(from as int, i as int) == v@.subrange(from as int, i - 1).push(v@[i - 1]));
    }
    out
}

} // verus!
