//! What holds of a hand on the dial, whatever it does in a frame.

use crate::dial::{countable, digit_set, steps, DialHz};
use crate::modes::Ticks;
use crate::tuning::{worth, Dial, Keys, Mouse, Spot, Surroundings, Tuning};
use vstd::prelude::*;

verus! {

/// No key pressed.
pub open spec fn no_keys() -> Keys {
    Keys { left: false, right: false, up: false, down: false, enter: false, escape: false }
}

/// Each digit is worth ten times the one to its right: the last a hertz, the fourth
/// from the right a kilohertz and the seventh a megahertz.
pub proof fn each_digit_is_worth_ten_times_the_next(place: nat)
    ensures
        worth(0) == 1_000,
        worth(place + 1) == 10 * worth(place),
        worth(3) == 1_000_000,
        worth(6) == 1_000_000_000,
{
    reveal_with_fuel(worth, 7);
}

/// What the hand asked for holds until the hand has been still for a second and a
/// half and the rig has been told; after that the rig's own reading does.
pub proof fn the_hand_has_the_dial_until_it_settles(d: Dial, t: Tuning, rig_says: Option<DialHz>, wall: Ticks)
    requires
        d.tuning == Some(t),
    ensures
        !t.sent ==> d.from(rig_says, wall) == t.hz,
        wall - t.at < 18_000_000 ==> d.from(rig_says, wall) == t.hz,
        t.sent && wall - t.at >= 18_000_000 && rig_says is Some ==> d.from(rig_says, wall) == rig_says->0,
{
}

/// A dial that no hand is on counts from what the rig says.
pub proof fn a_dial_left_alone_is_the_rigs(d: Dial, rig_says: DialHz, wall: Ticks)
    requires
        d.tuning is None,
    ensures
        d.from(Some(rig_says), wall) == rig_says,
{
}

/// A text field that has the keyboard always wins it from the dial, and what the
/// keys do there does nothing to the rig.
pub proof fn a_text_field_has_the_keys(d: Dial, k: Keys, digits: Seq<u32>, m: Mouse, s: Surroundings)
    requires
        s.focused,
        !m.up_hit,
        !m.down_hit,
        m.scroll == 0,
    ensures
        !d.worked(k, digits, m, s).0.typing,
        d.worked(k, digits, m, s).1.len() == 0,
        d.worked(k, digits, m, s).0.tuning is None || d.worked(k, digits, m, s).0.tuning == d.tuning,
{
}

/// Nothing is sent to a rig that does not say what it is tuned to, and nothing is
/// asked of it.
pub proof fn a_rig_that_says_nothing_is_asked_nothing(d: Dial, k: Keys, digits: Seq<u32>, m: Mouse, s: Surroundings)
    requires
        s.rig_says is None,
    ensures
        d.worked(k, digits, m, s).1.len() == 0,
        d.worked(k, digits, m, s).0.tuning is None || d.worked(k, digits, m, s).0.tuning == d.tuning,
{
}

/// The up key raises the frequency by what the selected digit is worth and the down
/// key lowers it by as much, and the rig is told at once.
pub proof fn up_raises_and_down_lowers(d: Dial, up: bool, m: Mouse, s: Surroundings)
    requires
        d.typing,
        s.rig_says is Some,
        !s.focused,
        d.pick < s.places,
        !m.clicked,
        !m.up_hit,
        !m.down_hit,
        m.scroll == 0,
    ensures
        ({
            let k = Keys { up, down: !up, ..no_keys() };
            let was = d.from(s.rig_says, s.wall);
            let by = worth(d.pick as nat);
            let (now, sent) = d.worked(k, Seq::empty(), m, s);
            &&& sent.len() == 1
            &&& now.tuning == Some(Tuning { hz: sent[0], at: s.wall, sent: true })
            &&& up && was + by <= i64::MAX && was + by >= 0 ==> sent[0] == was + by
            &&& !up && was - by >= 0 && was - by <= i64::MAX ==> sent[0] == was - by
            &&& !up && was - by < 0 ==> sent[0] == 0
        }),
{
    reveal_with_fuel(Dial::filled, 2);
}

/// The left key goes to the digit worth ten times as much and the right key to the
/// one worth a tenth; neither leaves the dial.
pub proof fn the_keys_move_along_the_dial(d: Dial, pointer: Option<Spot>, places: usize)
    requires
        d.pick < places,
    ensures
        ({
            let left = d.stepped_along(Keys { left: true, ..no_keys() }, pointer, places);
            let right = d.stepped_along(Keys { right: true, ..no_keys() }, pointer, places);
            &&& left.pick < places && right.pick < places
            &&& d.pick + 1 < places ==> left.pick == d.pick + 1
            &&& d.pick + 1 == places ==> left.pick == d.pick
            &&& d.pick > 0 ==> right.pick == d.pick - 1
            &&& d.pick == 0 ==> right.pick == 0
            &&& left.by_key == pointer && right.by_key == pointer
            &&& left.tuning == d.tuning && right.tuning == d.tuning
        }),
{
}

/// A digit that is typed fills the selected column, leaves every other as it was,
/// moves one place to the right, and waits.
pub proof fn a_typed_digit_fills_its_column(d: Dial, digit: u32, pointer: Option<Spot>, s: Surroundings)
    requires
        digit < 10,
        d.pick < s.places,
        d.from(s.rig_says, s.wall) >= 0,
        digit_set(d.from(s.rig_says, s.wall) as int, worth(d.pick as nat), digit as int) <= i64::MAX,
        worth(d.pick as nat) > 0,
    ensures
        ({
            let (now, typed) = d.filled(seq![digit], pointer, s);
            let was = d.from(s.rig_says, s.wall) as int;
            let place = worth(d.pick as nat);
            &&& typed is Some
            &&& typed->0 as int / place % 10 == digit
            &&& typed->0 as int % place == was % place
            &&& typed->0 as int / (10 * place) == was / (10 * place)
            &&& now.pick == if d.pick > 0 { d.pick - 1 } else { 0 }
            &&& now.tuning == d.tuning
        }),
{
    reveal_with_fuel(Dial::filled, 3);
    assert(seq![digit].drop_last() == Seq::<u32>::empty());
    crate::dial::a_digit_stays_in_its_column(
        d.from(s.rig_says, s.wall) as int,
        worth(d.pick as nat),
        digit as int,
    );
}

/// Off the digits the wheel sweeps by a hundred hertz a notch, whatever digit is
/// selected.
pub proof fn off_the_digits_the_wheel_sweeps(d: Dial, m: Mouse, s: Surroundings)
    requires
        s.rig_says is Some,
        !m.up_hit,
        !m.down_hit,
        m.under is None,
        m.hovered,
        m.scroll != 0,
    ensures
        ({
            let ready = d.attended(m, s).released(m);
            let was = ready.from(s.rig_says, s.wall);
            let (now, sent) = d.worked(no_keys(), Seq::empty(), m, s);
            &&& sent.len() == 1
            &&& sent[0] == countable(was + 100_000 * steps(m.scroll as int))
            &&& now.tuning == Some(Tuning { hz: sent[0], at: s.wall, sent: true })
        }),
{
    reveal_with_fuel(Dial::filled, 2);
}

/// The arrows of a digit step it by what it is worth, up and down.
pub proof fn arrows_step_their_digit(d: Dial, up: bool, m: Mouse, s: Surroundings)
    requires
        s.rig_says is Some,
        m.on_arrow,
        m.up_hit == up,
        m.down_hit == !up,
        d.pick < s.places,
    ensures
        ({
            let ready = d.attended(m, s).released(m);
            let was = ready.from(s.rig_says, s.wall);
            let (now, sent) = d.worked(no_keys(), Seq::empty(), m, s);
            &&& ready.pick == d.pick
            &&& sent == seq![countable(if up { was + worth(d.pick as nat) } else { was - worth(d.pick as nat) })]
        }),
{
    reveal_with_fuel(Dial::filled, 2);
}

/// A digit under the pointer is selected the moment the pointer moves; one that the
/// keys moved off stays so until then. The selection never leaves the dial.
pub proof fn the_last_one_used_has_the_selection(d: Dial, pointer: Option<Spot>, under: Option<usize>, places: usize)
    requires
        places > 0,
        under is Some ==> under->0 < places,
    ensures
        d.pointed(pointer, under, places).pick < places,
        under is Some && (d.by_key is None || d.by_key != pointer) ==> d.pointed(pointer, under, places).pick
            == under->0,
        d.by_key is Some && d.by_key == pointer && d.pick < places ==> d.pointed(pointer, under, places).pick == d.pick,
        under is None && d.pick < places ==> d.pointed(pointer, under, places).pick == d.pick,
        d.pointed(pointer, under, places).tuning == d.tuning,
        d.pointed(pointer, under, places).typing == d.typing,
{
}

/// A click on a digit takes the keys and selects it; one elsewhere gives the keys
/// back.
pub proof fn a_click_takes_and_gives_the_keys(d: Dial, m: Mouse, s: Surroundings)
    requires
        !s.focused,
    ensures
        m.clicked ==> d.attended(m, s).typing,
        m.clicked && !m.on_arrow && m.under is Some ==> d.attended(m, s).pick == m.under->0,
        m.clicked && m.on_arrow ==> d.attended(m, s).pick == d.pick,
        !m.clicked ==> d.attended(m, s) == d,
        m.any_click && !m.clicked ==> !d.attended(m, s).released(m).typing,
        m.clicked ==> d.attended(m, s).released(m).typing,
        !m.any_click ==> d.attended(m, s).released(m).typing == d.attended(m, s).typing,
{
}

/// Enter sends nothing where nothing is waiting to be sent, and asks for nothing anew:
/// what has gone to the rig does not go again.
pub proof fn enter_alone_sends_nothing(d: Dial, k: Keys, m: Mouse, s: Surroundings)
    requires
        d.tuning is None || d.tuning->0.sent,
        !k.up,
        !k.down,
        !k.escape,
        !m.up_hit,
        !m.down_hit,
        m.scroll == 0,
    ensures
        d.worked(k, Seq::empty(), m, s).1.len() == 0,
        d.worked(k, Seq::empty(), m, s).0.tuning == d.tuning,
{
    reveal_with_fuel(Dial::filled, 2);
}

/// What went to the rig stays asked for when the hand goes elsewhere, and only what
/// was typed and not entered is let go of.
pub proof fn what_was_sent_stays(d: Dial, m: Mouse)
    requires
        d.tuning is Some,
    ensures
        d.tuning->0.sent ==> d.released(m).tuning == d.tuning,
        d.typing ==> d.released(m).tuning == d.tuning,
        !d.tuning->0.sent && !d.typing ==> d.released(m).tuning is None,
        d.unentered() <==> !d.tuning->0.sent,
{
}

} // verus!
