//! What the menus lead to.

use crate::modes::Ticks;
use crate::text::same_text;
use vstd::prelude::*;

verus! {

/// How stale a list that is surveyed for a menu may get while the menu is open:
/// long enough not to be a poll loop, short enough that what was started because
/// the menu was empty shows up in it.
pub const REFRESH_S: Ticks = 18_000_000;

/// Whether a list surveyed so long ago, if ever, is to be surveyed again.
pub fn is_stale(surveyed: Option<Ticks>) -> (r: bool)
    ensures
        r <==> surveyed is None || surveyed->0 > REFRESH_S,
        r <==> !(surveyed is Some && surveyed->0 <= 18_000_000),
{
    match surveyed {
        Some(ago) => ago > REFRESH_S,
        None => true,
    }
}

/// What starting or stopping something asks for.
#[derive(Clone, Copy, Debug, PartialEq, Eq, Structural)]
pub enum Switch {
    Nothing,
    Start,
    Stop,
}

/// What asking for a recording, or for none, asks for.
pub fn set_recording(on: bool, recording: bool) -> (s: Switch)
    ensures
        s == if on && !recording {
            Switch::Start
        } else if !on && recording {
            Switch::Stop
        } else {
            Switch::Nothing
        },
{
    if on == recording {
        Switch::Nothing
    } else if on {
        Switch::Start
    } else {
        Switch::Stop
    }
}

/// What asking for the traffic log, or for none, asks for. Stopping one that is
/// not running does no harm.
pub fn set_csv(on: bool, running: bool) -> (s: Switch)
    ensures
        s == if !on {
            Switch::Stop
        } else if running {
            Switch::Nothing
        } else {
            Switch::Start
        },
{
    if !on {
        Switch::Stop
    } else if running {
        Switch::Nothing
    } else {
        Switch::Start
    }
}

/// Whether the box for recording is ticked: for what is being recorded, live, so
/// that a recording that failed to start unticks itself; and for what was asked
/// for otherwise.
pub fn record_ticked(live: bool, recording: bool, asked: bool) -> (r: bool)
    ensures
        r == if live { recording } else { asked },
{
    if live {
        recording
    } else {
        asked
    }
}

/// Whether two choices of a device are the same, where none is the default.
pub open spec fn same_choice(a: Option<String>, b: Option<String>) -> bool {
    match (a, b) {
        (Some(x), Some(y)) => x@ == y@,
        (None, None) => true,
        _ => false,
    }
}

/// Whether two choices of a device are the same, where none is the default.
pub fn is_chosen(a: &Option<String>, b: &Option<String>) -> (r: bool)
    ensures
        r == same_choice(*a, *b),
{
    match (a, b) {
        (Some(x), Some(y)) => same_text(x.as_str(), y.as_str()),
        (None, None) => true,
        _ => false,
    }
}

/// What picking an output asks for: to be remembered, and the stream there is
/// dropped, unless that would cut off a transmission.
#[derive(Clone, Copy, Debug, PartialEq, Eq, Structural)]
pub struct OutputChange {
    pub remember: bool,
    pub drop_stream: bool,
}

/// What picking an output asks for, with the transmitter busy for so long.
pub fn pick_output(picked: &Option<String>, preferred: &Option<String>, busy: Ticks) -> (c: OutputChange)
    ensures
        c.remember <==> !same_choice(*picked, *preferred),
        c.drop_stream <==> c.remember && busy <= 0,
{
    let changed = !is_chosen(picked, preferred);
    OutputChange { remember: changed, drop_stream: changed && busy <= 0 }
}

/// Whether a device leads on to a choice of what feeds it: where it is the one
/// that is open, and goes through a sound server that can be asked.
pub fn offers_routes(open: bool, available: bool, served: bool) -> (r: bool)
    ensures
        r == (open && available && served),
{
    open && available && served
}

/// What the rig's menu says of the link to it.
#[derive(Debug)]
pub enum Link {
    Fault(String),
    Note(&'static str),
}

/// What the rig's menu says of the link to it: its fault, or whether it says that
/// it is transmitting.
pub fn link_text(fault: &Option<String>, linked: bool, rig_says: Option<bool>) -> (l: Link)
    ensures
        match fault {
            Some(f) => l is Fault && l->Fault_0@ == "⚠ "@ + f@,
            None => l is Note && l->Note_0@ == if !linked {
                "not tried yet"@
            } else {
                match rig_says {
                    Some(true) => "linked — the rig is transmitting"@,
                    Some(false) => "linked — the rig is receiving"@,
                    None => "linked — it cannot say whether it is transmitting, only be told"@,
                }
            },
        },
{
    match fault {
        Some(f) => {
            let mut s = "⚠ ".to_owned();
            s.append(f.as_str());
            Link::Fault(s)
        },
        None => {
            if !linked {
                return Link::Note("not tried yet");
            }
            match rig_says {
                Some(keyed) => if keyed {
                    Link::Note("linked — the rig is transmitting")
                } else {
                    Link::Note("linked — the rig is receiving")
                },
                None => Link::Note("linked — it cannot say whether it is transmitting, only be told"),
            }
        },
    }
}

/// What stands in the panorama's place.
#[derive(Clone, Copy, Debug, PartialEq, Eq, Structural)]
pub enum Blank {
    /// Nothing is loaded, which is not the same as something loading.
    NothingLoaded,
    /// Its picture is being made.
    Computing,
}

/// What stands in the panorama's place, if anything does.
pub fn blank(pictured: bool, live: bool, loaded: bool) -> (b: Option<Blank>)
    ensures
        b == if pictured {
            None
        } else if !live && !loaded {
            Some(Blank::NothingLoaded)
        } else {
            Some(Blank::Computing)
        },
{
    if pictured {
        None
    } else if !live && !loaded {
        Some(Blank::NothingLoaded)
    } else {
        Some(Blank::Computing)
    }
}

/// Whether a frame has to be followed by another without being asked: live, while
/// something is loading or being scanned, while playing, and while a transmission
/// counts itself down.
pub fn keeps_painting(live: bool, pictured: bool, pending_scans: usize, playing: bool, busy: Ticks) -> (r: bool)
    ensures
        r <==> live || !pictured || pending_scans > 0 || playing || busy > 0,
{
    live || !pictured || pending_scans > 0 || playing || busy > 0
}

} // verus!
