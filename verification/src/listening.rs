//! Which modes are listened for.

use crate::find::{filter_ends, filter_one_more};
use crate::modes::{ModeId, Protocol};
use crate::text::{decimal, push_decimal};
use vstd::prelude::*;

verus! {

/// Whether a mode is listened for.
pub open spec fn is_on() -> spec_fn((ModeId, bool)) -> bool {
    |m: (ModeId, bool)| m.1
}

/// The modes listened for.
pub open spec fn enabled(modes: Seq<(ModeId, bool)>) -> Seq<ModeId> {
    modes.filter(is_on()).map_values(|m: (ModeId, bool)| m.0)
}

/// The modes currently being listened for, in the order of the list.
pub fn enabled_modes(modes: &Vec<(ModeId, bool)>) -> (on: Vec<ModeId>)
    ensures
        on@ == enabled(modes@),
{
    let mut on: Vec<ModeId> = Vec::new();
    let n: usize = modes.len();
    let mut i: usize = 0;
    proof {
        filter_ends(modes@, is_on());
        assert(enabled(modes@.take(0)) == Seq::<ModeId>::empty());
    }
    while i < n
        invariant
            n == modes@.len(),
            0 <= i <= n,
            on@ == enabled(modes@.take(i as int)),
        decreases n - i,
    {
        proof {
            filter_one_more(modes@, is_on(), i as int);
        }
        let ghost front = modes@.take(i as int).filter(is_on());
        if modes[i].1 {
            on.push(modes[i].0);
            assert(front.push(modes@[i as int]).map_values(|m: (ModeId, bool)| m.0) == on@);
        }
        i += 1;
    }
    assert(modes@.take(n as int) == modes@);
    on
}

/// Whether a mode is one of a protocol's.
pub open spec fn of_protocol(p: Protocol) -> spec_fn((ModeId, bool)) -> bool {
    |m: (ModeId, bool)| m.0.protocol == p
}

/// Whether a mode is one of a protocol's, and listened for.
pub open spec fn on_in(p: Protocol) -> spec_fn((ModeId, bool)) -> bool {
    |m: (ModeId, bool)| m.0.protocol == p && m.1
}

/// How many of a protocol's modes are listened for, and how many it has.
pub fn counts(modes: &Vec<(ModeId, bool)>, p: Protocol) -> (c: (usize, usize))
    ensures
        c.0 == modes@.filter(on_in(p)).len(),
        c.1 == modes@.filter(of_protocol(p)).len(),
{
    let mut on: usize = 0;
    let mut total: usize = 0;
    let n: usize = modes.len();
    let mut i: usize = 0;
    proof {
        filter_ends(modes@, on_in(p));
        filter_ends(modes@, of_protocol(p));
    }
    while i < n
        invariant
            n == modes@.len(),
            0 <= i <= n,
            on <= i,
            total <= i,
            on == modes@.take(i as int).filter(on_in(p)).len(),
            total == modes@.take(i as int).filter(of_protocol(p)).len(),
        decreases n - i,
    {
        proof {
            filter_one_more(modes@, on_in(p), i as int);
            filter_one_more(modes@, of_protocol(p), i as int);
        }
        if modes[i].0.protocol == p {
            total += 1;
            if modes[i].1 {
                on += 1;
            }
        }
        i += 1;
    }
    assert(modes@.take(n as int) == modes@);
    (on, total)
}

/// What the protocol's menu is called: its name, and how many of its modes are
/// on.
pub fn menu_label(name: &str, on: usize, total: usize) -> (s: String)
    ensures
        s@ == name@ + " "@ + decimal(on as nat) + "/"@ + decimal(total as nat),
{
    let mut s = name.to_owned();
    s.append(" ");
    push_decimal(&mut s, on as u64);
    s.append("/");
    push_decimal(&mut s, total as u64);
    s
}

/// Listen for all of a protocol's modes, or for none.
pub fn set_all(modes: &mut Vec<(ModeId, bool)>, p: Protocol, on: bool)
    ensures
        final(modes)@.len() == old(modes)@.len(),
        forall|i: int|
            0 <= i < old(modes)@.len() ==> #[trigger] final(modes)@[i] == if old(modes)@[i].0.protocol == p {
                (old(modes)@[i].0, on)
            } else {
                old(modes)@[i]
            },
{
    let n: usize = modes.len();
    let mut i: usize = 0;
    while i < n
        invariant
            n == modes@.len(),
            n == old(modes)@.len(),
            0 <= i <= n,
            forall|j: int|
                0 <= j < i ==> #[trigger] modes@[j] == if old(modes)@[j].0.protocol == p {
                    (old(modes)@[j].0, on)
                } else {
                    old(modes)@[j]
                },
            forall|j: int| i <= j < n ==> #[trigger] modes@[j] == old(modes)@[j],
        decreases n - i,
    {
        let m = modes[i].0;
        if m.protocol == p {
            modes.set(i, (m, on));
        }
        i += 1;
    }
}

/// Whether a mode is among others.
fn among(modes: &Vec<ModeId>, m: ModeId) -> (r: bool)
    ensures
        r == modes@.contains(m),
{
    let mut i: usize = 0;
    while i < modes.len()
        invariant
            0 <= i <= modes@.len(),
            forall|j: int| 0 <= j < i ==> #[trigger] modes@[j] != m,
        decreases modes@.len() - i,
    {
        if modes[i] == m {
            return true;
        }
        i += 1;
    }
    false
}

/// The list with just the wanted modes on. Wanting none of them changes nothing:
/// it would leave the window listening for nothing and looking broken.
pub open spec fn only(modes: Seq<(ModeId, bool)>, wanted: Seq<ModeId>) -> Seq<(ModeId, bool)> {
    if wanted.len() == 0 {
        modes
    } else {
        modes.map_values(|m: (ModeId, bool)| (m.0, wanted.contains(m.0)))
    }
}

/// Listen for just the wanted modes, if there are any.
pub fn listen_for(modes: &mut Vec<(ModeId, bool)>, wanted: &Vec<ModeId>)
    ensures
        final(modes)@ == only(old(modes)@, wanted@),
{
    if wanted.len() == 0 {
        return;
    }
    let n: usize = modes.len();
    let mut i: usize = 0;
    while i < n
        invariant
            n == modes@.len(),
            n == old(modes)@.len(),
            0 <= i <= n,
            forall|j: int|
                0 <= j < i ==> #[trigger] modes@[j] == (old(modes)@[j].0, wanted@.contains(old(modes)@[j].0)),
            forall|j: int| i <= j < n ==> #[trigger] modes@[j] == old(modes)@[j],
        decreases n - i,
    {
        let m = modes[i].0;
        modes.set(i, (m, among(wanted, m)));
        i += 1;
    }
    assert(modes@ =~= only(old(modes)@, wanted@));
}

/// Whether two lists hold the same modes in the same order, each once.
pub open spec fn same_list(a: Seq<(ModeId, bool)>, b: Seq<(ModeId, bool)>) -> bool {
    &&& a.len() == b.len()
    &&& forall|i: int| 0 <= i < a.len() ==> (#[trigger] a[i]).0 == b[i].0
    &&& forall|i: int, j: int| 0 <= i < j < a.len() ==> (#[trigger] a[i]).0 != (#[trigger] a[j]).0
}

/// A mode is among those listened for just where the list has it on.
pub proof fn enabled_is_what_is_on(modes: Seq<(ModeId, bool)>, i: int)
    requires
        0 <= i < modes.len(),
        forall|j: int, k: int| 0 <= j < k < modes.len() ==> (#[trigger] modes[j]).0 != (#[trigger] modes[k]).0,
    ensures
        enabled(modes).contains(modes[i].0) <==> modes[i].1,
{
    let f = modes.filter(is_on());
    if modes[i].1 {
        sifted_in(modes, i);
        let k = choose|k: int| 0 <= k < f.len() && f[k] == modes[i];
        assert(enabled(modes)[k] == modes[i].0);
    } else if enabled(modes).contains(modes[i].0) {
        let k = choose|k: int| 0 <= k < enabled(modes).len() && enabled(modes)[k] == modes[i].0;
        crate::find::sifted_was_there(modes, is_on(), k);
        let j = choose|j: int| 0 <= j < modes.len() && modes[j] == f[k];
        assert(is_on()(f[k]));
        assert(modes[j].0 == modes[i].0);
        assert(j == i) by {
            if j < i {
                assert(modes[j].0 != modes[i].0);
            } else if i < j {
                assert(modes[i].0 != modes[j].0);
            }
        }
    }
}

proof fn sifted_in(modes: Seq<(ModeId, bool)>, i: int)
    requires
        0 <= i < modes.len(),
        modes[i].1,
    ensures
        modes.filter(is_on()).contains(modes[i]),
    decreases modes.len(),
{
    reveal(Seq::filter);
    let front = modes.drop_last();
    let f = modes.filter(is_on());
    if i < front.len() {
        sifted_in(front, i);
        let k = choose|k: int| 0 <= k < front.filter(is_on()).len() && front.filter(is_on())[k] == modes[i];
        assert(f[k] == modes[i]);
    } else {
        assert(f[f.len() - 1] == modes[i]);
    }
}

/// Restoring the modes that were listened for brings back the list as it was,
/// whatever was on in between.
pub proof fn the_list_comes_back(was: Seq<(ModeId, bool)>, over: Seq<(ModeId, bool)>)
    requires
        same_list(was, over),
        enabled(was).len() > 0,
    ensures
        only(over, enabled(was)) == was,
{
    let r = only(over, enabled(was));
    assert forall|i: int| 0 <= i < was.len() implies #[trigger] r[i] == was[i] by {
        enabled_is_what_is_on(was, i);
        assert(was[i].0 == over[i].0);
    }
    assert(r =~= was);
}

/// What is listened for is just what is on, in the order of the list: each of the
/// modes listened for is one that the list has on.
pub proof fn only_what_is_on_is_listened_for(modes: Seq<(ModeId, bool)>, k: int)
    requires
        0 <= k < enabled(modes).len(),
    ensures
        exists|i: int| 0 <= i < modes.len() && (#[trigger] modes[i]).0 == enabled(modes)[k] && modes[i].1,
{
    let on = modes.filter(is_on());
    crate::find::sifted_was_there(modes, is_on(), k);
    let i = choose|i: int| 0 <= i < modes.len() && modes[i] == on[k];
    assert(modes[i].0 == enabled(modes)[k]);
}

/// A protocol's count is of its own modes, and the count of those that are on is of
/// those that are on.
pub proof fn counts_are_of_the_protocols_own(modes: Seq<(ModeId, bool)>, p: Protocol, m: (ModeId, bool))
    requires
        modes.contains(m),
    ensures
        modes.filter(of_protocol(p)).contains(m) <==> m.0.protocol == p,
        modes.filter(on_in(p)).contains(m) <==> m.0.protocol == p && m.1,
{
    let (a, b) = (of_protocol(p), on_in(p));
    if a(m) {
        crate::find::sifted_is_kept(modes, a, m);
    }
    if b(m) {
        crate::find::sifted_is_kept(modes, b, m);
    }
    if modes.filter(a).contains(m) {
        let i = choose|i: int| 0 <= i < modes.filter(a).len() && modes.filter(a)[i] == m;
        crate::find::sifted_was_there(modes, a, i);
    }
    if modes.filter(b).contains(m) {
        let i = choose|i: int| 0 <= i < modes.filter(b).len() && modes.filter(b)[i] == m;
        crate::find::sifted_was_there(modes, b, i);
    }
}

} // verus!
