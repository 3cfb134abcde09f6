//! How the transmitter is keyed, and what the window says of it.

use crate::health::{to_seconds, whole_seconds};
use crate::modes::SECOND;
use crate::text::{decimal, push_decimal, same_text};
use vstd::prelude::*;

verus! {

/// The rate the port setting starts at: the one a KX3 leaves the factory at.
pub const DEFAULT_RIG_BAUD: u32 = 38_400;

/// Where `rigctld` listens unless told otherwise.
pub const DEFAULT_RIG_HOST: &'static str = "127.0.0.1";

pub const DEFAULT_RIG_PORT: u16 = 4532;

/// A way of keying.
#[derive(Debug)]
pub enum Keying {
    /// Nothing is keyed: the rig decides, on VOX or a straight-through
    /// interface.
    Nothing,
    /// Through hamlib's daemon.
    RigCtld { host: String, port: u16 },
    /// An Elecraft on a serial cable.
    Elecraft { device: String, baud: u32 },
    /// A Yaesu on a serial cable.
    Yaesu { device: String, baud: u32 },
}

/// What a way of keying says.
#[verifier::ext_equal]
pub enum KeyingView {
    Nothing,
    RigCtld { host: Seq<char>, port: u16 },
    Elecraft { device: Seq<char>, baud: u32 },
    Yaesu { device: Seq<char>, baud: u32 },
}

impl View for Keying {
    type V = KeyingView;

    open spec fn view(&self) -> KeyingView {
        match self {
            Keying::Nothing => KeyingView::Nothing,
            Keying::RigCtld { host, port } => KeyingView::RigCtld { host: host@, port: *port },
            Keying::Elecraft { device, baud } => KeyingView::Elecraft { device: device@, baud: *baud },
            Keying::Yaesu { device, baud } => KeyingView::Yaesu { device: device@, baud: *baud },
        }
    }
}

/// Everything there is to key with, in the order the settings offer it: the word
/// written to the settings file, what the control shows, and what it says when
/// it is pointed at.
pub const KEYERS: [(&'static str, &'static str, &'static str); 4] = [
    ("none", "None", "nothing is keyed: the rig decides, on VOX or a straight-through interface"),
    (
        "rigctld",
        "rigctld",
        "hamlib's daemon: run `rigctld -m <model> -r <device>` and give its address below. Hamlib will not key a rig it has no PTT method for — add `--set-conf=ptt_type=RIG` (or RTS, or DTR) if it refuses.",
    ),
    (
        "elecraft",
        "Elecraft",
        "a KX3 or K3 on a serial cable, spoken to directly — no daemon to run. The rate is whatever the radio's menu says; a KX3 leaves the factory at 38400.",
    ),
    (
        "yaesu",
        "Yaesu",
        "an FT-991A, FT-891, FT-710 or FTDX on a serial cable, spoken to directly — no daemon to run. The rate is menu 031, CAT RATE, and an FT-991A leaves the factory at 4800 rather than the Elecraft's 38400. The filter is not shown for these: a Yaesu reports its width as a table index rather than a number of hertz. Not the older FT-817 or FT-857, which speak a different CAT.",
    ),
];

impl KeyingView {
    /// The word for a setting, as written to the settings file.
    pub open spec fn tag(self) -> Seq<char> {
        match self {
            KeyingView::Nothing => "none"@,
            KeyingView::RigCtld { .. } => "rigctld"@,
            KeyingView::Elecraft { .. } => "elecraft"@,
            KeyingView::Yaesu { .. } => "yaesu"@,
        }
    }
}

/// The word for a setting, as written to the settings file.
pub fn keying_tag(keying: &Keying) -> (tag: &'static str)
    ensures
        tag@ == keying@.tag(),
{
    match keying {
        Keying::Nothing => "none",
        Keying::RigCtld { .. } => "rigctld",
        Keying::Elecraft { .. } => "elecraft",
        Keying::Yaesu { .. } => "yaesu",
    }
}

impl Keying {
    /// Whether the radio is on a serial cable, so that a port and a rate mean
    /// anything.
    pub fn on_a_cable(&self) -> (r: bool)
        ensures
            r == (self@ is Elecraft || self@ is Yaesu),
    {
        match self {
            Keying::Elecraft { .. } => true,
            Keying::Yaesu { .. } => true,
            _ => false,
        }
    }
}

/// The addresses that the ways of keying are filled in from.
#[derive(Debug)]
pub struct RigAddress {
    pub host: String,
    pub port: u16,
    pub device: String,
    pub baud: u32,
}

/// What addresses say.
#[verifier::ext_equal]
pub struct AddressView {
    pub host: Seq<char>,
    pub port: u16,
    pub device: Seq<char>,
    pub baud: u32,
}

impl View for RigAddress {
    type V = AddressView;

    open spec fn view(&self) -> AddressView {
        AddressView { host: self.host@, port: self.port, device: self.device@, baud: self.baud }
    }
}

/// The setting that a tag names, filled in from addresses. A tag that is not
/// known is not keying at all.
pub open spec fn keying_named(tag: Seq<char>, a: AddressView) -> KeyingView {
    if tag == "rigctld"@ {
        KeyingView::RigCtld { host: a.host, port: a.port }
    } else if tag == "elecraft"@ {
        KeyingView::Elecraft { device: a.device, baud: a.baud }
    } else if tag == "yaesu"@ {
        KeyingView::Yaesu { device: a.device, baud: a.baud }
    } else {
        KeyingView::Nothing
    }
}

impl RigAddress {
    /// The setting that a tag names, filled in from these addresses.
    pub fn keying_for(&self, tag: &str) -> (k: Keying)
        ensures
            k@ == keying_named(tag@, self@),
    {
        proof {
            tags_are_distinct();
        }
        if same_text(tag, "rigctld") {
            Keying::RigCtld { host: self.host.clone(), port: self.port }
        } else if same_text(tag, "elecraft") {
            Keying::Elecraft { device: self.device.clone(), baud: self.baud }
        } else if same_text(tag, "yaesu") {
            Keying::Yaesu { device: self.device.clone(), baud: self.baud }
        } else {
            Keying::Nothing
        }
    }
}

/// Every way of keying has a tag of its own.
pub proof fn tags_are_distinct()
    ensures
        "none"@ != "rigctld"@ && "none"@ != "elecraft"@ && "none"@ != "yaesu"@,
        "rigctld"@ != "elecraft"@ && "rigctld"@ != "yaesu"@ && "elecraft"@ != "yaesu"@,
{
    reveal_strlit("none");
    reveal_strlit("rigctld");
    reveal_strlit("elecraft");
    reveal_strlit("yaesu");
    assert("none"@.len() == 4 && "rigctld"@.len() == 7 && "elecraft"@.len() == 8 && "yaesu"@.len() == 5);
}

/// Every way of keying round-trips through its tag: the setting that a tag names
/// names the tag back, and a setting is named by its tag.
pub proof fn tags_round_trip(a: AddressView, i: int)
    requires
        0 <= i < 4,
    ensures
        keying_named(KEYERS[i].0@, a).tag() == KEYERS[i].0@,
        forall|j: int| 0 <= j < 4 && j != i ==> #[trigger] KEYERS[j].0@ != KEYERS[i].0@,
        KEYERS[0].0@ == "none"@,
{
    tags_are_distinct();
    assert(i == 0 || i == 1 || i == 2 || i == 3);
    assert forall|j: int| 0 <= j < 4 && j != i implies #[trigger] KEYERS[j].0@ != KEYERS[i].0@ by {
        assert(j == 0 || j == 1 || j == 2 || j == 3);
    }
}

/// A tag that no way of keying has leaves the transmitter alone.
pub proof fn an_unknown_tag_keys_nothing(tag: Seq<char>, a: AddressView)
    requires
        forall|i: int| 0 <= i < 4 ==> #[trigger] KEYERS[i].0@ != tag,
    ensures
        keying_named(tag, a) == KeyingView::Nothing,
{
    assert(KEYERS[1].0@ != tag && KEYERS[2].0@ != tag && KEYERS[3].0@ != tag);
}

/// Whether two settings say the same.
fn same_keying(a: &Keying, b: &Keying) -> (r: bool)
    ensures
        r == (a@ == b@),
{
    match (a, b) {
        (Keying::Nothing, Keying::Nothing) => true,
        (Keying::RigCtld { host: h, port: p }, Keying::RigCtld { host: i, port: q }) => same_text(
            h.as_str(),
            i.as_str(),
        ) && *p == *q,
        (Keying::Elecraft { device: d, baud: p }, Keying::Elecraft { device: e, baud: q }) => same_text(
            d.as_str(),
            e.as_str(),
        ) && *p == *q,
        (Keying::Yaesu { device: d, baud: p }, Keying::Yaesu { device: e, baud: q }) => same_text(
            d.as_str(),
            e.as_str(),
        ) && *p == *q,
        _ => false,
    }
}

/// What a change of keying asks for.
#[derive(Clone, Copy, Debug, PartialEq, Eq, Structural)]
pub enum Rekey {
    /// Nothing: it is keyed this way already.
    Keep,
    /// Drop the supervisor there is, and have none.
    Stop,
    /// Drop the supervisor there is, then start one for the new setting.
    Restart,
}

/// What changing the keying from `now` to `to` asks for, where `supervised` says
/// whether a supervisor is running. The one that is running is always dropped
/// first, so that the rig is off the air before anything else can key it.
pub fn set_keying(now: &Keying, to: &Keying, supervised: bool) -> (r: Rekey)
    ensures
        r == if now@ == to@ && supervised == !(to@ is Nothing) {
            Rekey::Keep
        } else if to@ is Nothing {
            Rekey::Stop
        } else {
            Rekey::Restart
        },
{
    let none = match to {
        Keying::Nothing => true,
        _ => false,
    };
    if same_keying(now, to) && supervised == !none {
        Rekey::Keep
    } else if none {
        Rekey::Stop
    } else {
        Rekey::Restart
    }
}

/// What the transmitter is doing, as far as anything can tell.
#[derive(Clone, Copy, Debug, PartialEq, Eq, Structural)]
pub struct TxState {
    /// Whether this application asked for it to be keyed.
    pub asked: bool,
    /// Whether the rig says that it is, if it says.
    pub rig_says: Option<bool>,
    /// How long it has been keyed.
    pub keyed_for: u64,
}

/// What the key shows.
#[derive(Clone, Copy, Debug, PartialEq, Eq, Structural)]
pub enum TxLight {
    Off,
    /// Transmitting because this application asked for it.
    Ours,
    /// Transmitting for a reason that it does not know.
    Elsewhere,
}

impl TxState {
    /// Whether the rig is on the air for any reason.
    pub open spec fn on_the_air(self) -> bool {
        self.asked || self.rig_says == Some(true)
    }

    /// What the key shows.
    pub open spec fn light_of(self) -> TxLight {
        if self.asked {
            TxLight::Ours
        } else if self.rig_says == Some(true) {
            TxLight::Elsewhere
        } else {
            TxLight::Off
        }
    }

    /// What the key shows.
    pub fn light(&self) -> (l: TxLight)
        ensures
            l == self.light_of(),
    {
        if self.asked {
            return TxLight::Ours;
        }
        match self.rig_says {
            Some(true) => TxLight::Elsewhere,
            _ => TxLight::Off,
        }
    }

    /// What pressing the key asks of the rig: to be keyed, or not.
    ///
    /// Against whether the rig is transmitting at all, not against whether this
    /// application is what keyed it: there is no state in which pressing it puts
    /// a rig on the air that is already on it.
    pub fn press(&self) -> (key: bool)
        ensures
            key == !self.on_the_air(),
    {
        match self.light() {
            TxLight::Off => true,
            _ => false,
        }
    }

    /// What the key is labelled: how long it has been down, once that is a
    /// second or more.
    pub fn label(&self) -> (s: String)
        ensures
            s@ == if self.on_the_air() && self.keyed_for >= SECOND {
                "TX "@ + decimal(whole_seconds(self.keyed_for as nat)) + "s"@
            } else {
                "TX"@
            },
    {
        match self.light() {
            TxLight::Off => "TX".to_owned(),
            _ => if self.keyed_for >= SECOND as u64 {
                let mut out = "TX ".to_owned();
                push_decimal(&mut out, to_seconds(self.keyed_for));
                out.append("s");
                out
            } else {
                "TX".to_owned()
            },
        }
    }

    /// What the key says under the pointer: whatever stands in its way, or else
    /// what pressing it would do.
    pub fn hover(&self, keying: &Keying, fault: &Option<String>) -> (s: String)
        ensures
            s@ == match (keying@, *fault, self.light_of()) {
                (KeyingView::Nothing, _, _) => "nothing is keying the rig — ☰ ▸ Rig, or leave it to VOX"@,
                (_, Some(why), _) => why@,
                (_, None, TxLight::Elsewhere) =>
                    "the rig is transmitting, and not because this asked it to — click to stop it"@,
                (_, None, TxLight::Ours) => "transmitting — click to stop"@,
                (_, None, TxLight::Off) => "key the transmitter"@,
            },
    {
        match keying {
            Keying::Nothing => return "nothing is keying the rig — ☰ ▸ Rig, or leave it to VOX".to_owned(),
            _ => {},
        }
        if let Some(why) = fault {
            return why.clone();
        }
        match self.light() {
            TxLight::Elsewhere => {
                "the rig is transmitting, and not because this asked it to — click to stop it".to_owned()
            },
            TxLight::Ours => "transmitting — click to stop".to_owned(),
            TxLight::Off => "key the transmitter".to_owned(),
        }
    }
}

/// A rig is on the air where this application asked for it or the rig says so, and
/// the key's light tells which: it is off just where neither holds.
pub proof fn the_light_tells_why(t: TxState)
    ensures
        t.asked ==> t.on_the_air() && t.light_of() == TxLight::Ours,
        t.rig_says == Some(true) ==> t.on_the_air() && t.light_of() != TxLight::Off,
        !t.asked && t.rig_says == Some(true) ==> t.light_of() == TxLight::Elsewhere,
        !t.asked && t.rig_says != Some(true) ==> !t.on_the_air() && t.light_of() == TxLight::Off,
{
}

/// Each way of keying goes by the addresses that are its own: the daemon by host and
/// port, a radio on a cable by device and rate.
pub proof fn a_way_of_keying_has_its_own_addresses(tag: Seq<char>, a: AddressView)
    ensures
        keying_named(tag, a) matches KeyingView::RigCtld { host, port } ==> host == a.host && port == a.port,
        keying_named(tag, a) matches KeyingView::Elecraft { device, baud } ==> device == a.device && baud == a.baud,
        keying_named(tag, a) matches KeyingView::Yaesu { device, baud } ==> device == a.device && baud == a.baud,
        keying_named(tag, a).tag() == tag || keying_named(tag, a) is Nothing,
{
}

} // verus!
