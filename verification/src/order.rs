//! Putting things in order.

use vstd::prelude::*;

verus! {

/// Whether `le` orders all values, with ties.
pub open spec fn orders<T>(le: spec_fn(T, T) -> bool) -> bool {
    &&& forall|a: T, b: T| #[trigger] le(a, b) || #[trigger] le(b, a)
    &&& forall|a: T, b: T, c: T| #[trigger] le(a, b) && #[trigger] le(b, c) ==> le(a, c)
}

/// Things in order with `x` put behind all that do not come after it.
pub open spec fn placed<T>(s: Seq<T>, x: T, le: spec_fn(T, T) -> bool) -> Seq<T>
    decreases s.len(),
{
    if s.len() == 0 || le(s.last(), x) {
        s.push(x)
    } else {
        placed(s.drop_last(), x, le).push(s.last())
    }
}

/// Things in order, those that tie in the order they came.
pub open spec fn sorted<T>(s: Seq<T>, le: spec_fn(T, T) -> bool) -> Seq<T>
    decreases s.len(),
{
    if s.len() == 0 {
        s
    } else {
        placed(sorted(s.drop_last(), le), s.last(), le)
    }
}

/// Whether things are in order.
pub open spec fn in_sequence<T>(s: Seq<T>, le: spec_fn(T, T) -> bool) -> bool {
    forall|i: int, j: int| 0 <= i < j < s.len() ==> le(#[trigger] s[i], #[trigger] s[j])
}

/// Those of `s` that tie with `t`.
pub open spec fn ties<T>(s: Seq<T>, t: T, le: spec_fn(T, T) -> bool) -> Seq<T> {
    s.filter(|x: T| le(x, t) && le(t, x))
}

/// Placing puts `x` in somewhere and leaves the rest as it was.
pub proof fn placed_inserts<T>(s: Seq<T>, x: T, le: spec_fn(T, T) -> bool, p: int)
    requires
        0 <= p <= s.len(),
        p > 0 ==> le(s[p - 1], x),
        forall|j: int| p <= j < s.len() ==> !le(#[trigger] s[j], x),
    ensures
        placed(s, x, le) == s.insert(p, x),
    decreases s.len(),
{
    if p == s.len() {
        assert(s.insert(p, x) == s.push(x));
    } else {
        assert(!le(s[s.len() - 1], x));
        placed_inserts(s.drop_last(), x, le, p);
        assert(s.drop_last().insert(p, x).push(s.last()) == s.insert(p, x));
    }
}

proof fn placed_holds<T>(s: Seq<T>, x: T, le: spec_fn(T, T) -> bool, i: int)
    requires
        0 <= i < placed(s, x, le).len(),
    ensures
        placed(s, x, le)[i] == x || s.contains(placed(s, x, le)[i]),
    decreases s.len(),
{
    let all = placed(s, x, le);
    if s.len() == 0 || le(s.last(), x) {
        if i < s.len() {
            assert(s[i] == all[i]);
        }
    } else {
        let most = placed(s.drop_last(), x, le);
        if i < most.len() {
            placed_holds(s.drop_last(), x, le, i);
            if most[i] != x {
                let k = choose|k: int| 0 <= k < s.len() - 1 && s.drop_last()[k] == most[i];
                assert(s[k] == all[i]);
            }
        } else {
            assert(s[s.len() - 1] == all[i]);
        }
    }
}

proof fn placed_is_stable<T>(s: Seq<T>, x: T, le: spec_fn(T, T) -> bool)
    requires
        orders(le),
        in_sequence(s, le),
    ensures
        in_sequence(placed(s, x, le), le),
        placed(s, x, le).len() == s.len() + 1,
        forall|t: T| #[trigger] ties(placed(s, x, le), t, le) == ties(s.push(x), t, le),
    decreases s.len(),
{
    reveal(Seq::filter);
    let all = placed(s, x, le);
    if s.len() == 0 || le(s.last(), x) {
        assert forall|i: int, j: int| 0 <= i < j < all.len() implies le(#[trigger] all[i], #[trigger] all[j]) by {
            if j == s.len() {
                assert(le(s[i], s.last()) || i == s.len() - 1);
            }
        }
    } else {
        let front = s.drop_last();
        let last = s.last();
        assert forall|i: int, j: int| 0 <= i < j < front.len() implies le(#[trigger] front[i], #[trigger] front[j]) by {
            assert(le(s[i], s[j]));
        }
        placed_is_stable(front, x, le);
        let most = placed(front, x, le);
        assert(le(x, last));
        assert forall|i: int| 0 <= i < most.len() implies le(#[trigger] most[i], last) by {
            placed_holds(front, x, le, i);
            if most[i] != x {
                let k = choose|k: int| 0 <= k < front.len() && front[k] == most[i];
                assert(le(s[k], s[s.len() - 1]));
            }
        }
        assert forall|i: int, j: int| 0 <= i < j < all.len() implies le(#[trigger] all[i], #[trigger] all[j]) by {
            if j < most.len() {
                assert(le(most[i], most[j]));
            } else {
                assert(le(most[i], last));
            }
        }
        assert forall|t: T| #[trigger] ties(all, t, le) == ties(s.push(x), t, le) by {
            let p = |y: T| le(y, t) && le(t, y);
            assert(ties(most, t, le) == ties(front.push(x), t, le));
            assert(most.push(last).drop_last() == most);
            assert(s.push(x).drop_last() == s);
            assert(front.push(x).drop_last() == front);
            assert(!le(last, x));
            assert(!(p(x) && p(last))) by {
                if p(x) && p(last) {
                    assert(le(last, t) && le(t, x));
                }
            }
            assert(ties(all, t, le) == if p(last) { ties(most, t, le).push(last) } else { ties(most, t, le) });
            assert(ties(front.push(x), t, le) == if p(x) { ties(front, t, le).push(x) } else { ties(front, t, le) });
            assert(ties(s.push(x), t, le) == if p(x) { ties(s, t, le).push(x) } else { ties(s, t, le) });
            assert(ties(s, t, le) == if p(last) { ties(front, t, le).push(last) } else { ties(front, t, le) });
        }
    }
}

/// Sorting puts things in order, loses none and makes none, and keeps those
/// that tie in the order they came.
pub proof fn sorted_is_stable<T>(s: Seq<T>, le: spec_fn(T, T) -> bool)
    requires
        orders(le),
    ensures
        in_sequence(sorted(s, le), le),
        sorted(s, le).len() == s.len(),
        forall|t: T| #[trigger] ties(sorted(s, le), t, le) == ties(s, t, le),
    decreases s.len(),
{
    reveal(Seq::filter);
    if s.len() > 0 {
        let front = sorted(s.drop_last(), le);
        sorted_is_stable(s.drop_last(), le);
        placed_is_stable(front, s.last(), le);
        assert forall|t: T| #[trigger] ties(sorted(s, le), t, le) == ties(s, t, le) by {
            assert(ties(placed(front, s.last(), le), t, le) == ties(front.push(s.last()), t, le));
            assert(front.push(s.last()).drop_last() == front);
            assert(ties(front, t, le) == ties(s.drop_last(), t, le));
        }
    }
}

/// Things in order are settled by what ties with what, and in which order.
pub proof fn order_is_settled_by_ties<T>(a: Seq<T>, b: Seq<T>, le: spec_fn(T, T) -> bool)
    requires
        orders(le),
        in_sequence(a, le),
        in_sequence(b, le),
        forall|t: T| #[trigger] ties(a, t, le) == ties(b, t, le),
    ensures
        a == b,
    decreases a.len(),
{
    reveal(Seq::filter);
    if a.len() == 0 {
        if b.len() > 0 {
            let t = b.last();
            assert(le(t, t));
            assert(ties(a, t, le) == ties(b, t, le));
            assert(ties(a, t, le).len() == 0);
        }
    } else {
        let x = a.last();
        let p = |y: T| le(y, x) && le(x, y);
        assert(le(x, x));
        assert(ties(a, x, le) == ties(b, x, le));
        assert(ties(a, x, le).last() == x);
        let n = ties(b, x, le).len() - 1;
        crate::find::sifted_was_there(b, p, n);
        let i = choose|i: int| 0 <= i < b.len() && b[i] == x;
        let y = b.last();
        assert(le(x, y)) by {
            if i < b.len() - 1 {
                assert(le(b[i], b[b.len() - 1]));
            }
        }
        let q = |z: T| le(z, y) && le(y, z);
        assert(le(y, y));
        assert(ties(a, y, le) == ties(b, y, le));
        assert(ties(b, y, le).last() == y);
        let m = ties(a, y, le).len() - 1;
        crate::find::sifted_was_there(a, q, m);
        let j = choose|j: int| 0 <= j < a.len() && a[j] == y;
        assert(le(y, x)) by {
            if j < a.len() - 1 {
                assert(le(a[j], a[a.len() - 1]));
            }
        }
        assert(p(y));
        assert(ties(b, x, le).last() == y);
        assert(x == y);
        let fa = a.drop_last();
        let fb = b.drop_last();
        assert forall|t: T| #[trigger] ties(fa, t, le) == ties(fb, t, le) by {
            assert(ties(a, t, le) == ties(b, t, le));
            if le(x, t) && le(t, x) {
                assert(ties(a, t, le).drop_last() == ties(fa, t, le));
                assert(ties(b, t, le).drop_last() == ties(fb, t, le));
            }
        }
        assert(in_sequence(fa, le)) by {
            assert forall|i: int, j: int| 0 <= i < j < fa.len() implies le(#[trigger] fa[i], #[trigger] fa[j]) by {
                assert(le(a[i], a[j]));
            }
        }
        assert(in_sequence(fb, le)) by {
            assert forall|i: int, j: int| 0 <= i < j < fb.len() implies le(#[trigger] fb[i], #[trigger] fb[j]) by {
                assert(le(b[i], b[j]));
            }
        }
        order_is_settled_by_ties(fa, fb, le);
        assert(a == fa.push(x));
        assert(b == fb.push(y));
    }
}

/// What ties in two sequences, one after the other.
pub proof fn ties_add<T>(a: Seq<T>, b: Seq<T>, t: T, le: spec_fn(T, T) -> bool)
    ensures
        ties(a + b, t, le) == ties(a, t, le) + ties(b, t, le),
    decreases b.len(),
{
    reveal(Seq::filter);
    if b.len() == 0 {
        assert(a + b == a);
    } else {
        ties_add(a, b.drop_last(), t, le);
        assert((a + b).drop_last() == a + b.drop_last());
        assert((a + b).last() == b.last());
    }
}

/// Nothing ties where nothing could.
pub proof fn no_ties<T>(s: Seq<T>, t: T, le: spec_fn(T, T) -> bool)
    requires
        forall|i: int| 0 <= i < s.len() ==> !(le(#[trigger] s[i], t) && le(t, s[i])),
    ensures
        ties(s, t, le).len() == 0,
    decreases s.len(),
{
    reveal(Seq::filter);
    if s.len() > 0 {
        assert forall|i: int| 0 <= i < s.drop_last().len() implies !(le(#[trigger] s.drop_last()[i], t) && le(
            t,
            s.drop_last()[i],
        )) by {
            assert(!(le(s[i], t) && le(t, s[i])));
        }
        no_ties(s.drop_last(), t, le);
        assert(!(le(s[s.len() - 1], t) && le(t, s[s.len() - 1])));
    }
}

/// What is in order was there before.
pub proof fn sorted_was_there<T>(s: Seq<T>, le: spec_fn(T, T) -> bool, i: int)
    requires
        0 <= i < sorted(s, le).len(),
    ensures
        s.contains(sorted(s, le)[i]),
    decreases s.len(),
{
    let front = sorted(s.drop_last(), le);
    placed_holds(front, s.last(), le, i);
    let x = sorted(s, le)[i];
    if x == s.last() {
        assert(s[s.len() - 1] == x);
    } else {
        let k = choose|k: int| 0 <= k < front.len() && front[k] == x;
        sorted_was_there(s.drop_last(), le, k);
        let m = choose|m: int| 0 <= m < s.len() - 1 && s.drop_last()[m] == x;
        assert(s[m] == x);
    }
}

/// Nothing is lost by putting things in order.
pub proof fn sorted_keeps<T>(s: Seq<T>, le: spec_fn(T, T) -> bool, x: T)
    requires
        s.contains(x),
    ensures
        sorted(s, le).contains(x),
    decreases s.len(),
{
    let front = sorted(s.drop_last(), le);
    let i = choose|i: int| 0 <= i < s.len() && s[i] == x;
    if i < s.len() - 1 {
        assert(s.drop_last()[i] == x);
        sorted_keeps(s.drop_last(), le, x);
    }
    placed_keeps(front, s.last(), le, x);
}

proof fn placed_keeps<T>(s: Seq<T>, x: T, le: spec_fn(T, T) -> bool, y: T)
    requires
        x == y || s.contains(y),
    ensures
        placed(s, x, le).contains(y),
    decreases s.len(),
{
    let all = placed(s, x, le);
    if s.len() == 0 || le(s.last(), x) {
        if s.contains(y) {
            let i = choose|i: int| 0 <= i < s.len() && s[i] == y;
            assert(all[i] == y);
        } else {
            assert(all[s.len() as int] == y);
        }
    } else {
        let front = placed(s.drop_last(), x, le);
        if x == y || s.drop_last().contains(y) {
            placed_keeps(s.drop_last(), x, le, y);
            let i = choose|i: int| 0 <= i < front.len() && front[i] == y;
            assert(all[i] == y);
        } else {
            let i = choose|i: int| 0 <= i < s.len() && s[i] == y;
            if i < s.len() - 1 {
                assert(s.drop_last()[i] == y);
            }
            assert(all[front.len() as int] == y);
        }
    }
}

} // verus!
