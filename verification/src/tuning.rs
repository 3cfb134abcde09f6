//! A hand on the dial.
//!
//! Every digit is its own control, worth its own decade. The mouse and the keys
//! move one selection between them, and the last one used owns it.

use crate::dial::{
    countable, dial_digits, dial_reading, digit_set, notches, steps, with_digit, DialHz, SWEEP_HZ, TUNING_SETTLES_S,
};
use crate::modes::{since, Ticks};
use vstd::prelude::*;

verus! {

/// A frequency the hand has asked for, on its way to the rig.
#[derive(Clone, Copy, Debug, PartialEq, Eq, Structural)]
pub struct Tuning {
    pub hz: DialHz,
    /// When it was last touched, on the wall clock.
    pub at: Ticks,
    /// Whether the rig has been told.
    pub sent: bool,
}

/// The most places a dial may have, so that the worth of each can be counted.
pub const MAX_PLACES: usize = 16;

/// A place on the window.
#[derive(Clone, Copy, Debug, PartialEq, Eq, Structural)]
pub struct Spot {
    pub x: i32,
    pub y: i32,
}

/// The dial as the hand left it.
#[derive(Clone, Copy, Debug, PartialEq, Eq, Structural)]
pub struct Dial {
    pub tuning: Option<Tuning>,
    /// The selected digit, counted from the right.
    pub pick: usize,
    /// Where the pointer was when the keys last moved the selection.
    pub by_key: Option<Spot>,
    /// Whether the dial has the keyboard.
    pub typing: bool,
}

/// What the keyboard did this frame.
#[derive(Clone, Copy, Debug, PartialEq, Eq, Structural)]
pub struct Keys {
    pub left: bool,
    pub right: bool,
    pub up: bool,
    pub down: bool,
    pub enter: bool,
    pub escape: bool,
}

/// What the mouse did this frame.
#[derive(Clone, Copy, Debug, PartialEq, Eq, Structural)]
pub struct Mouse {
    pub pointer: Option<Spot>,
    /// The digit under the pointer, counted from the right.
    pub under: Option<usize>,
    /// Whether the pointer is on an arrow of the selected digit.
    pub on_arrow: bool,
    /// Whether the pointer is over the dial.
    pub hovered: bool,
    /// Whether the dial was clicked.
    pub clicked: bool,
    /// Whether anything was clicked.
    pub any_click: bool,
    /// Whether the up arrow was clicked.
    pub up_hit: bool,
    /// Whether the down arrow was clicked.
    pub down_hit: bool,
    /// How far the wheel was turned, in thousandths of a scroll unit.
    pub scroll: i64,
}

/// What the rest of the window and the rig say.
#[derive(Clone, Copy, Debug, PartialEq, Eq, Structural)]
pub struct Surroundings {
    /// How many digits the dial shows.
    pub places: usize,
    /// Whether a text field has the keyboard.
    pub focused: bool,
    /// What the rig is tuned to, if it says.
    pub rig_says: Option<DialHz>,
    /// The wall clock.
    pub wall: Ticks,
}

/// What a digit is worth, counted from the right.
pub open spec fn worth(place: nat) -> int
    decreases place,
{
    if place == 0 {
        1000
    } else {
        10 * worth((place - 1) as nat)
    }
}

/// What a digit is worth, counted from the right.
pub fn worth_of(place: usize) -> (hz: DialHz)
    requires
        place < MAX_PLACES,
    ensures
        hz == worth(place as nat),
        hz > 0,
{
    let mut hz: DialHz = 1000;
    let mut i: usize = 0;
    proof {
        reveal_with_fuel(worth, 17);
    }
    while i < place
        invariant
            0 <= i <= place < 16,
            hz == worth(i as nat),
            0 < hz <= worth(15),
            worth(15) == 1_000_000_000_000_000_000,
            forall|k: nat| k < 15 ==> #[trigger] worth(k) <= 100_000_000_000_000_000,
        decreases place - i,
    {
        assert(worth(i as nat) <= 100_000_000_000_000_000);
        hz = hz * 10;
        i += 1;
    }
    hz
}

impl Dial {
    /// Where the next step counts from: what the hand has already asked for,
    /// until it has stopped long enough for the rig to answer.
    pub open spec fn from(self, rig_says: Option<DialHz>, wall: Ticks) -> DialHz {
        match self.tuning {
            Some(t) if wall - t.at < TUNING_SETTLES_S || !t.sent => t.hz,
            _ => match rig_says {
                Some(hz) => hz,
                None => 0,
            },
        }
    }

    /// Where the next step counts from.
    pub fn tuning_from(&self, rig_says: Option<DialHz>, wall: Ticks) -> (hz: DialHz)
        ensures
            hz == self.from(rig_says, wall),
    {
        if let Some(t) = self.tuning {
            if since(wall, t.at) < TUNING_SETTLES_S as i128 || !t.sent {
                return t.hz;
            }
        }
        match rig_says {
            Some(hz) => hz,
            None => 0,
        }
    }

    /// What the dial shows: what the hand has asked for while it is on the dial,
    /// and otherwise what the rig says, if it says.
    pub fn shown(&self, rig_says: Option<DialHz>, wall: Ticks) -> (hz: Option<DialHz>)
        ensures
            hz == match self.tuning {
                Some(t) if wall - t.at < TUNING_SETTLES_S || !t.sent => Some(t.hz),
                _ => rig_says,
            },
    {
        if let Some(t) = self.tuning {
            if since(wall, t.at) < TUNING_SETTLES_S as i128 || !t.sent {
                return Some(t.hz);
            }
        }
        rig_says
    }

    /// The dial as it reads: dashes where it is unknown, since a zero would lie.
    pub fn reading(&self, rig_says: Option<DialHz>, wall: Ticks) -> (s: String)
        ensures
            s@ == match self.tuning {
                Some(t) if wall - t.at < TUNING_SETTLES_S || !t.sent => dial_reading(t.hz),
                _ => match rig_says {
                    Some(hz) => dial_reading(hz),
                    None => "---.---.---"@,
                },
            },
    {
        match self.shown(rig_says, wall) {
            Some(hz) => dial_digits(hz),
            None => "---.---.---".to_owned(),
        }
    }

    /// Whether something has been typed and not entered.
    pub open spec fn unentered(self) -> bool {
        self.tuning is Some && !self.tuning->0.sent
    }

    /// Whether something has been typed and not entered.
    pub fn pending(&self) -> (r: bool)
        ensures
            r == self.unentered(),
    {
        match self.tuning {
            Some(t) => !t.sent,
            None => false,
        }
    }

    /// The last of the places.
    pub open spec fn last_place(places: usize) -> usize {
        if places == 0 {
            0
        } else {
            (places - 1) as usize
        }
    }

    /// The dial once the pointer has been looked at: hover takes the selection
    /// back the moment the pointer moves, and until then the keys keep it.
    pub open spec fn pointed(self, pointer: Option<Spot>, under: Option<usize>, places: usize) -> Dial {
        let kept = if self.pick < Self::last_place(places) { self.pick } else { Self::last_place(places) };
        let moved = self.by_key is None || pointer != self.by_key;
        if under is Some && moved {
            Dial { pick: under->0, by_key: None, ..self }
        } else {
            Dial { pick: kept, ..self }
        }
    }

    /// Look at where the pointer is.
    pub fn point(&mut self, pointer: Option<Spot>, under: Option<usize>, places: usize)
        ensures
            *final(self) == old(self).pointed(pointer, under, places),
    {
        let last: usize = if places == 0 { 0 } else { places - 1 };
        if self.pick > last {
            self.pick = last;
        }
        let moved = match self.by_key {
            None => true,
            Some(was) => match pointer {
                None => true,
                Some(p) => p != was,
            },
        };
        if let Some(i) = under {
            if moved {
                self.pick = i;
                self.by_key = None;
            }
        }
    }

    /// The dial once clicks and the rest of the window have had their say. A
    /// click on the dial takes the keys and points it, but on an arrow it is a
    /// step; a text field always wins.
    pub open spec fn attended(self, m: Mouse, s: Surroundings) -> Dial {
        let clicked = if m.clicked {
            if m.on_arrow {
                Dial { typing: true, ..self }
            } else {
                Dial {
                    typing: true,
                    pick: match m.under {
                        Some(i) => i,
                        None => Self::last_place(s.places),
                    },
                    by_key: None,
                    ..self
                }
            }
        } else {
            self
        };
        if s.focused {
            Dial { typing: false, ..clicked }
        } else {
            clicked
        }
    }

    fn attend(&mut self, m: &Mouse, s: &Surroundings)
        ensures
            *final(self) == old(self).attended(*m, *s),
    {
        if m.clicked {
            self.typing = true;
            if !m.on_arrow {
                self.pick = match m.under {
                    Some(i) => i,
                    None => if s.places == 0 {
                        0
                    } else {
                        s.places - 1
                    },
                };
                self.by_key = None;
            }
        }
        if s.focused {
            self.typing = false;
        }
    }

    /// The dial once it is settled who has the keyboard from here on. A click
    /// elsewhere hands it back; a number typed and not entered goes when it is
    /// looked away from.
    pub open spec fn released(self, m: Mouse) -> Dial {
        let d = if !self.typing && self.unentered() { Dial { tuning: None, ..self } } else { self };
        if self.typing && m.any_click && !m.clicked {
            Dial { typing: false, ..d }
        } else {
            d
        }
    }

    fn release(&mut self, m: &Mouse)
        ensures
            *final(self) == old(self).released(*m),
    {
        let typing = self.typing;
        if typing && m.any_click && !m.clicked {
            self.typing = false;
        }
        if !typing && self.pending() {
            self.tuning = None;
        }
    }

    /// The selection once the keys have moved it.
    pub open spec fn stepped_along(self, k: Keys, pointer: Option<Spot>, places: usize) -> Dial {
        let one = if k.left {
            Dial {
                pick: if self.pick < Self::last_place(places) {
                    (self.pick + 1) as usize
                } else {
                    Self::last_place(places)
                },
                by_key: pointer,
                ..self
            }
        } else {
            self
        };
        if k.right {
            Dial { pick: if one.pick > 0 { (one.pick - 1) as usize } else { 0 }, by_key: pointer, ..one }
        } else {
            one
        }
    }

    fn step_along(&mut self, k: &Keys, pointer: Option<Spot>, places: usize)
        ensures
            *final(self) == old(self).stepped_along(*k, pointer, places),
    {
        if k.left {
            let last: usize = if places == 0 { 0 } else { places - 1 };
            self.pick = if self.pick < last { self.pick + 1 } else { last };
            self.by_key = pointer;
        }
        if k.right {
            self.pick = if self.pick > 0 { self.pick - 1 } else { 0 };
            self.by_key = pointer;
        }
    }

    /// What the selected digit is worth.
    pub open spec fn selected_worth(self, places: usize) -> int {
        if self.pick < places {
            worth(self.pick as nat)
        } else {
            1000
        }
    }

    /// What the selected digit is worth.
    fn selected(&self, places: usize) -> (hz: DialHz)
        requires
            places <= MAX_PLACES,
        ensures
            hz == self.selected_worth(places),
            hz > 0,
    {
        if self.pick < places {
            worth_of(self.pick)
        } else {
            1000
        }
    }

    /// The dial once Enter and Escape have been seen to: Enter is what sends a
    /// typed number, and nothing else does; Escape puts it back to whatever the
    /// radio says.
    pub open spec fn concluded(self, k: Keys, wall: Ticks) -> Dial {
        let entered = if k.enter && self.unentered() {
            Dial { tuning: Some(Tuning { sent: true, at: wall, ..self.tuning->0 }), ..self }
        } else {
            self
        };
        if k.escape {
            Dial { tuning: None, typing: false, ..entered }
        } else {
            entered
        }
    }

    /// The frequency that Enter sends.
    pub open spec fn sent_by(self, k: Keys) -> Seq<DialHz> {
        if k.enter && self.unentered() {
            seq![self.tuning->0.hz]
        } else {
            Seq::empty()
        }
    }

    fn conclude(&mut self, k: &Keys, wall: Ticks, tunes: &mut Vec<DialHz>)
        ensures
            *final(self) == old(self).concluded(*k, wall),
            final(tunes)@ == old(tunes)@ + old(self).sent_by(*k),
    {
        let ghost before = tunes@;
        if k.enter {
            if let Some(t) = self.tuning {
                if !t.sent {
                    tunes.push(t.hz);
                    self.tuning = Some(Tuning { sent: true, at: wall, ..t });
                    assert(tunes@ == before + seq![t.hz]);
                } else {
                    assert(before + Seq::<DialHz>::empty() == before);
                }
            }
        }
        if k.escape {
            self.tuning = None;
            self.typing = false;
        }
        assert(tunes@ == before + old(self).sent_by(*k));
    }

    /// The dial once digits have been typed, with the number they make so far.
    /// Each fills the selected column and moves one place along.
    pub open spec fn filled(self, digits: Seq<u32>, pointer: Option<Spot>, s: Surroundings) -> (Dial, Option<DialHz>)
        decreases digits.len(),
    {
        if digits.len() == 0 {
            (self, None)
        } else {
            let (d, typed) = self.filled(digits.drop_last(), pointer, s);
            let base = match typed {
                Some(hz) => hz,
                None => d.from(s.rig_says, s.wall),
            };
            let hz = countable(
                digit_set(
                    if base < 0 { 0 } else { base as int },
                    d.selected_worth(s.places),
                    digits.last() as int,
                ),
            );
            (
                Dial { pick: if d.pick > 0 { (d.pick - 1) as usize } else { 0 }, by_key: pointer, ..d },
                Some(hz),
            )
        }
    }

    fn fill(&mut self, digits: &Vec<u32>, pointer: Option<Spot>, s: &Surroundings) -> (typed: Option<DialHz>)
        requires
            s.places <= MAX_PLACES,
            forall|i: int| 0 <= i < digits@.len() ==> #[trigger] digits@[i] < 10,
        ensures
            (*final(self), typed) == old(self).filled(digits@, pointer, *s),
    {
        let mut typed: Option<DialHz> = None;
        let mut i: usize = 0;
        assert(digits@.take(0) == Seq::<u32>::empty());
        while i < digits.len()
            invariant
                0 <= i <= digits@.len(),
                s.places <= MAX_PLACES,
                forall|j: int| 0 <= j < digits@.len() ==> #[trigger] digits@[j] < 10,
                (*self, typed) == old(self).filled(digits@.take(i as int), pointer, *s),
            decreases digits.len() - i,
        {
            assert(digits@.take(i + 1).drop_last() == digits@.take(i as int));
            assert(digits@.take(i + 1).last() == digits@[i as int]);
            let base: DialHz = match typed {
                Some(hz) => hz,
                None => self.tuning_from(s.rig_says, s.wall),
            };
            let place: DialHz = self.selected(s.places);
            typed = Some(with_digit(base, place, digits[i]));
            self.pick = if self.pick > 0 { self.pick - 1 } else { 0 };
            self.by_key = pointer;
            i += 1;
        }
        assert(digits@.take(digits@.len() as int) == digits@);
        typed
    }

    /// By how much the arrows and the wheel move the dial, if they do. `by_keys`
    /// is what the keys asked for.
    pub open spec fn nudged(self, by_keys: Option<int>, typing: bool, m: Mouse, places: usize) -> Option<int> {
        let on_digit = if (typing || m.under is Some || m.on_arrow || m.hovered) && self.pick < places {
            let place = worth(self.pick as nat);
            if m.up_hit {
                Some(place)
            } else if m.down_hit {
                Some(-place)
            } else if m.under == Some(self.pick) && m.scroll != 0 {
                Some(place * steps(m.scroll as int))
            } else {
                by_keys
            }
        } else {
            by_keys
        };
        if on_digit is None && m.under is None && m.hovered && m.scroll != 0 {
            Some(SWEEP_HZ * steps(m.scroll as int))
        } else {
            on_digit
        }
    }

    fn nudge(&self, by_keys: Option<i128>, typing: bool, m: &Mouse, places: usize) -> (by: Option<i128>)
        requires
            places <= MAX_PLACES,
            by_keys is Some ==> -0x1_0000_0000_0000_0000 < by_keys->0 < 0x1_0000_0000_0000_0000,
        ensures
            match by {
                Some(d) => {
                    &&& self.nudged(
                        match by_keys {
                            Some(k) => Some(k as int),
                            None => None,
                        },
                        typing,
                        *m,
                        places,
                    ) == Some(d as int)
                    &&& -0x1000_0000_0000_0000_0000_0000_0000_0000 < d < 0x1000_0000_0000_0000_0000_0000_0000_0000
                },
                None => self.nudged(
                    match by_keys {
                        Some(k) => Some(k as int),
                        None => None,
                    },
                    typing,
                    *m,
                    places,
                ) is None,
            },
    {
        let turned: i64 = notches(m.scroll);
        assert(-0x4_0000_0000_0000 < turned < 0x4_0000_0000_0000);
        let mut by: Option<i128> = by_keys;
        if (typing || m.under.is_some() || m.on_arrow || m.hovered) && self.pick < places {
            let place: i64 = worth_of(self.pick);
            let over_selected = match m.under {
                Some(i) => i == self.pick,
                None => false,
            };
            if m.up_hit {
                by = Some(place as i128);
            } else if m.down_hit {
                by = Some(-(place as i128));
            } else if over_selected && m.scroll != 0 {
                assert(-0x1000_0000_0000_0000_0000_0000_0000_0000 < place * turned
                    < 0x1000_0000_0000_0000_0000_0000_0000_0000) by (nonlinear_arith)
                    requires
                        0 < place <= i64::MAX,
                        -0x4_0000_0000_0000 < turned < 0x4_0000_0000_0000,
                ;
                by = Some(place as i128 * turned as i128);
            }
        }
        if by.is_none() && m.under.is_none() && m.hovered && m.scroll != 0 {
            by = Some(SWEEP_HZ as i128 * turned as i128);
        }
        by
    }

    /// What the keys move the dial by.
    pub open spec fn keyed_by(self, k: Keys, places: usize) -> Option<int> {
        if k.down {
            Some(-self.selected_worth(places))
        } else if k.up {
            Some(self.selected_worth(places))
        } else {
            None
        }
    }

    /// The dial once the keys have been worked, what they move it by, what they
    /// typed and what they sent. They are only worked while the dial has them and
    /// the rig says what it is tuned to.
    pub open spec fn after_keys(self, k: Keys, digits: Seq<u32>, m: Mouse, s: Surroundings) -> (
        Dial,
        Option<int>,
        Option<DialHz>,
        Seq<DialHz>,
    ) {
        let along = self.stepped_along(k, m.pointer, s.places);
        let done = along.concluded(k, s.wall);
        let (d, typed) = done.filled(digits, m.pointer, s);
        (d, along.keyed_by(k, s.places), typed, along.sent_by(k))
    }

    /// The dial after a frame, and the frequencies that are sent to the rig in
    /// it.
    ///
    /// A step takes over whatever was typed: it is consolidated with it and the
    /// lot goes to the rig. What was typed alone waits.
    pub open spec fn worked(self, k: Keys, digits: Seq<u32>, m: Mouse, s: Surroundings) -> (Dial, Seq<DialHz>) {
        let at = self.attended(m, s);
        let typing = at.typing;
        let ready = at.released(m);
        let (keyed, by_keys, typed, entered) = if typing && s.rig_says is Some {
            ready.after_keys(k, digits, m, s)
        } else {
            (ready, None, None, Seq::empty())
        };
        if s.rig_says is None {
            (keyed, entered)
        } else {
            match keyed.nudged(by_keys, typing, m, s.places) {
                Some(by) => {
                    let hz = countable(keyed.from(s.rig_says, s.wall) + by);
                    (
                        Dial { tuning: Some(Tuning { hz, at: s.wall, sent: true }), ..keyed },
                        entered.push(hz),
                    )
                },
                None => match typed {
                    Some(hz) => (
                        Dial { tuning: Some(Tuning { hz, at: s.wall, sent: false }), ..keyed },
                        entered,
                    ),
                    None => (keyed, entered),
                },
            }
        }
    }

    /// Work the dial for one frame; get back the frequencies to send to the rig.
    pub fn work(&mut self, k: &Keys, digits: &Vec<u32>, m: &Mouse, s: &Surroundings) -> (tunes: Vec<DialHz>)
        requires
            s.places <= MAX_PLACES,
            forall|i: int| 0 <= i < digits@.len() ==> #[trigger] digits@[i] < 10,
        ensures
            (*final(self), tunes@) == old(self).worked(*k, digits@, *m, *s),
    {
        let mut tunes: Vec<DialHz> = Vec::new();
        self.attend(m, s);
        let typing = self.typing;
        self.release(m);
        let live = s.rig_says.is_some();
        let mut by_keys: Option<i128> = None;
        let mut typed: Option<DialHz> = None;
        if typing && live {
            self.step_along(k, m.pointer, s.places);
            let place: DialHz = self.selected(s.places);
            if k.down {
                by_keys = Some(-(place as i128));
            } else if k.up {
                by_keys = Some(place as i128);
            }
            self.conclude(k, s.wall, &mut tunes);
            typed = self.fill(digits, m.pointer, s);
        }
        if live {
            match self.nudge(by_keys, typing, m, s.places) {
                Some(by) => {
                    let base: i128 = self.tuning_from(s.rig_says, s.wall) as i128;
                    let sum: i128 = base + by;
                    let hz: DialHz = if sum < 0 {
                        0
                    } else if sum > i64::MAX as i128 {
                        i64::MAX
                    } else {
                        sum as i64
                    };
                    self.tuning = Some(Tuning { hz, at: s.wall, sent: true });
                    tunes.push(hz);
                },
                None => {
                    if let Some(hz) = typed {
                        self.tuning = Some(Tuning { hz, at: s.wall, sent: false });
                    }
                },
            }
        }
        tunes
    }
}

/// A hand that does nothing but type.
pub open spec fn only_typing(k: Keys, m: Mouse) -> bool {
    &&& !k.up && !k.down
    &&& !m.up_hit && !m.down_hit && m.scroll == 0
}

/// What is typed waits for Enter: without it, and without a step, nothing is
/// sent to the rig, and what was typed is not taken for sent.
pub proof fn typing_waits_for_enter(d: Dial, k: Keys, digits: Seq<u32>, m: Mouse, s: Surroundings)
    requires
        only_typing(k, m),
        !k.enter,
    ensures
        d.worked(k, digits, m, s).1.len() == 0,
        d.unentered() ==> d.worked(k, digits, m, s).0.tuning is None || d.worked(k, digits, m, s).0.unentered(),
{
    filling_keeps_the_tuning(
        d.attended(m, s).released(m).stepped_along(k, m.pointer, s.places).concluded(k, s.wall),
        digits,
        m.pointer,
        s,
    );
}

/// Typing digits sends nothing and asks for nothing by itself.
proof fn filling_keeps_the_tuning(d: Dial, digits: Seq<u32>, pointer: Option<Spot>, s: Surroundings)
    ensures
        d.filled(digits, pointer, s).0.tuning == d.tuning,
        d.filled(digits, pointer, s).0.typing == d.typing,
        digits.len() > 0 <==> d.filled(digits, pointer, s).1 is Some,
    decreases digits.len(),
{
    if digits.len() > 0 {
        filling_keeps_the_tuning(d, digits.drop_last(), pointer, s);
    }
}

/// Enter sends what was typed, once.
pub proof fn enter_sends_what_was_typed(d: Dial, k: Keys, m: Mouse, s: Surroundings)
    requires
        d.unentered(),
        d.attended(m, s).typing,
        s.rig_says is Some,
        only_typing(k, m),
        k.enter,
        !k.escape,
    ensures
        d.worked(k, Seq::empty(), m, s).1 == seq![d.tuning->0.hz],
        d.worked(k, Seq::empty(), m, s).0.tuning == Some(
            Tuning { hz: d.tuning->0.hz, at: s.wall, sent: true },
        ),
{
}

/// Escape puts the dial back to whatever the radio says, and sends nothing.
pub proof fn escape_abandons_what_was_typed(d: Dial, k: Keys, m: Mouse, s: Surroundings)
    requires
        d.attended(m, s).typing,
        s.rig_says is Some,
        only_typing(k, m),
        k.escape,
        !k.enter,
    ensures
        d.worked(k, Seq::empty(), m, s).0.tuning is None,
        !d.worked(k, Seq::empty(), m, s).0.typing,
        d.worked(k, Seq::empty(), m, s).1.len() == 0,
{
}

/// Looking away is not confirmation: what was typed and not entered goes back to
/// the rig's own.
pub proof fn looking_away_abandons_what_was_typed(d: Dial, k: Keys, digits: Seq<u32>, m: Mouse, s: Surroundings)
    requires
        d.unentered(),
        !d.attended(m, s).typing,
        m.scroll == 0 && !m.up_hit && !m.down_hit,
    ensures
        d.worked(k, digits, m, s).0.tuning is None,
        d.worked(k, digits, m, s).1.len() == 0,
{
}

/// A step of the wheel builds on whatever the hand has already asked for and
/// goes to the rig as it is made.
pub proof fn a_step_goes_out_as_it_is_made(d: Dial, k: Keys, m: Mouse, s: Surroundings)
    requires
        s.rig_says is Some,
        d.attended(m, s).released(m).pick < s.places,
        m.under == Some(d.attended(m, s).released(m).pick),
        m.scroll != 0,
        !m.up_hit && !m.down_hit,
        k == (Keys { left: false, right: false, up: false, down: false, enter: false, escape: false }),
    ensures
        ({
            let ready = d.attended(m, s).released(m);
            let hz = countable(
                ready.from(s.rig_says, s.wall) + worth(ready.pick as nat) * steps(m.scroll as int),
            );
            &&& d.worked(k, Seq::empty(), m, s).0.tuning == Some(Tuning { hz, at: s.wall, sent: true })
            &&& d.worked(k, Seq::empty(), m, s).1 == seq![hz]
        }),
{
}

/// Consecutive steps accumulate: while the hand is on the dial, what it asked
/// for last is where the next step counts from, whatever the rig says meanwhile.
pub proof fn steps_accumulate(d: Dial, t: Tuning, rig_says: Option<DialHz>, wall: Ticks)
    requires
        d.tuning == Some(t),
        wall - t.at < TUNING_SETTLES_S,
    ensures
        d.from(rig_says, wall) == t.hz,
{
}

/// What the dial says under the pointer: what is wrong with the rig, or else how
/// the dial is worked, where the rig says what it is tuned to.
pub fn dial_hint(known: bool, fault: &Option<String>) -> (s: String)
    ensures
        s@ == match *fault {
            Some(why) => why@,
            None => if known {
                "what the rig is tuned to. Scroll or click the arrows over a digit to step it, and the rig follows at once. Click to type: ←→ to move, digits to fill, Enter to send it, Esc to put it back. 100 Hz a click off the digits."@
            } else {
                "the rig does not report its frequency"@
            },
        },
{
    match fault {
        Some(why) => why.clone(),
        None => if known {
            "what the rig is tuned to. Scroll or click the arrows over a digit to step it, and the rig follows at once. Click to type: ←→ to move, digits to fill, Enter to send it, Esc to put it back. 100 Hz a click off the digits.".to_owned()
        } else {
            "the rig does not report its frequency".to_owned()
        },
    }
}

} // verus!
