//! What survives a restart: how the window is arranged, what it listens for, and
//! where in the band it is pointed.

use crate::listening::{enabled, enabled_modes, listen_for, only, same_list, the_list_comes_back};
use crate::modes::{MilliHz, ModeId, Ticks, SECOND};
use crate::rig::{
    keying_named, keying_tag, AddressView, Keying, KeyingView, RigAddress, DEFAULT_RIG_BAUD,
    DEFAULT_RIG_HOST, DEFAULT_RIG_PORT,
};
use crate::rows::{MAX_FADE_S, MAX_FORGET_MIN};
use crate::text::{to_chars, trim, trimmed, white_space};
use crate::theme::{saved_theme, theme_saved_as, themes_round_trip, Theme};
use crate::view::{within, Panorama};
use vstd::prelude::*;

verus! {

/// Narrowest and widest the conversations may be, in thousandths of a point.
pub const MIN_QSO_W: i64 = 240_000;

pub const MAX_QSO_W: i64 = 900_000;

/// What is written down. Sizes are in thousandths of a point, the speed in
/// thousandths of life, and how long text is kept in thousandths of a minute.
///
/// Modes, the theme and the way of keying go by name: a settings file outlives
/// the types that wrote it, and a word that is not known should cost that one
/// setting rather than the whole file.
#[derive(Debug)]
pub struct Settings {
    pub text_px: i64,
    pub waterfall_w: i64,
    pub span_s: Ticks,
    pub scroll_secs: Ticks,
    pub speed: i64,
    pub modes: Vec<String>,
    pub input_device: Option<String>,
    pub output_device: Option<String>,
    pub show_all_inputs: bool,
    /// Width of the conversations.
    pub qso_w: i64,
    /// Bounds of the view; without them it is the whole band.
    pub view_hz: Option<(MilliHz, MilliHz)>,
    pub theme: String,
    /// Mode that a conversation opened by hand starts in.
    pub default_mode: String,
    /// How long text stays on its row. Zero keeps everything.
    pub forget_min: i64,
    /// How long text takes to go.
    pub fade_secs: Ticks,
    pub rig_keying: String,
    pub rig_host: String,
    pub rig_port: u16,
    pub rig_device: String,
    pub rig_baud: u32,
    /// Whether the rig's settings are expanded under the dial.
    pub rig_more: bool,
}

/// What of the window persists.
#[derive(Debug)]
pub struct Desk {
    pub text_px: i64,
    pub waterfall_w: i64,
    pub span_s: Ticks,
    pub scroll_secs: Ticks,
    pub speed: i64,
    /// Every mode there is, and whether it is listened for.
    pub modes: Vec<(ModeId, bool)>,
    pub preferred_input: Option<String>,
    pub preferred_output: Option<String>,
    pub show_all_inputs: bool,
    pub qso_w: i64,
    pub view: Panorama,
    pub theme: Theme,
    pub default_mode: ModeId,
    pub forget_min: u32,
    pub fade_secs: Ticks,
    pub rig: Keying,
    pub address: RigAddress,
    pub rig_more: bool,
}

/// What settings say.
#[verifier::ext_equal]
pub struct SettingsView {
    pub text_px: i64,
    pub waterfall_w: i64,
    pub span_s: Ticks,
    pub scroll_secs: Ticks,
    pub speed: i64,
    pub input_device: Option<Seq<char>>,
    pub output_device: Option<Seq<char>>,
    pub show_all_inputs: bool,
    pub qso_w: i64,
    pub view_hz: Option<(MilliHz, MilliHz)>,
    pub theme: Seq<char>,
    pub forget_min: i64,
    pub fade_secs: Ticks,
    pub rig_keying: Seq<char>,
    pub address: AddressView,
    pub rig_more: bool,
}

/// What the window holds.
#[verifier::ext_equal]
pub struct DeskView {
    pub text_px: i64,
    pub waterfall_w: i64,
    pub span_s: Ticks,
    pub scroll_secs: Ticks,
    pub speed: i64,
    pub modes: Seq<(ModeId, bool)>,
    pub preferred_input: Option<Seq<char>>,
    pub preferred_output: Option<Seq<char>>,
    pub show_all_inputs: bool,
    pub qso_w: i64,
    pub view: Panorama,
    pub theme: Theme,
    pub default_mode: ModeId,
    pub forget_min: u32,
    pub fade_secs: Ticks,
    pub rig: KeyingView,
    pub address: AddressView,
    pub rig_more: bool,
}

/// A text that may be missing.
pub open spec fn maybe(s: Option<String>) -> Option<Seq<char>> {
    match s {
        Some(t) => Some(t@),
        None => None,
    }
}

impl View for Settings {
    type V = SettingsView;

    open spec fn view(&self) -> SettingsView {
        SettingsView {
            text_px: self.text_px,
            waterfall_w: self.waterfall_w,
            span_s: self.span_s,
            scroll_secs: self.scroll_secs,
            speed: self.speed,
            input_device: maybe(self.input_device),
            output_device: maybe(self.output_device),
            show_all_inputs: self.show_all_inputs,
            qso_w: self.qso_w,
            view_hz: self.view_hz,
            theme: self.theme@,
            forget_min: self.forget_min,
            fade_secs: self.fade_secs,
            rig_keying: self.rig_keying@,
            address: AddressView {
                host: self.rig_host@,
                port: self.rig_port,
                device: self.rig_device@,
                baud: self.rig_baud,
            },
            rig_more: self.rig_more,
        }
    }
}

impl View for Desk {
    type V = DeskView;

    open spec fn view(&self) -> DeskView {
        DeskView {
            text_px: self.text_px,
            waterfall_w: self.waterfall_w,
            span_s: self.span_s,
            scroll_secs: self.scroll_secs,
            speed: self.speed,
            modes: self.modes@,
            preferred_input: maybe(self.preferred_input),
            preferred_output: maybe(self.preferred_output),
            show_all_inputs: self.show_all_inputs,
            qso_w: self.qso_w,
            view: self.view,
            theme: self.theme,
            default_mode: self.default_mode,
            forget_min: self.forget_min,
            fade_secs: self.fade_secs,
            rig: self.rig@,
            address: self.address@,
            rig_more: self.rig_more,
        }
    }
}

/// An address restored over another: what is blank, or zero, is left alone.
pub open spec fn readdressed(now: AddressView, saved: AddressView) -> AddressView {
    AddressView {
        host: if trim(saved.host).len() > 0 { saved.host } else { now.host },
        port: if saved.port != 0 { saved.port } else { now.port },
        device: if trim(saved.device).len() > 0 { saved.device } else { now.device },
        baud: if saved.baud != 0 { saved.baud } else { now.baud },
    }
}

impl DeskView {
    /// What every window keeps to: each number is in its range, the view can be
    /// navigated out of, and the rig is keyed at the addresses there are.
    pub open spec fn wf(self) -> bool {
        &&& 8_000 <= self.text_px <= 22_000
        &&& 10 * SECOND <= self.span_s <= 120 * SECOND
        &&& 0 <= self.scroll_secs <= 2 * SECOND
        &&& 1_000 <= self.speed <= 20_000
        &&& MIN_QSO_W <= self.qso_w <= MAX_QSO_W
        &&& self.forget_min <= MAX_FORGET_MIN
        &&& 0 <= self.fade_secs <= MAX_FADE_S
        &&& self.view.wf()
        &&& self.rig == keying_named(self.rig.tag(), self.address)
    }

    /// What of the window is written down.
    pub open spec fn saved(self) -> SettingsView {
        SettingsView {
            text_px: self.text_px,
            waterfall_w: self.waterfall_w,
            span_s: self.span_s,
            scroll_secs: self.scroll_secs,
            speed: self.speed,
            input_device: self.preferred_input,
            output_device: self.preferred_output,
            show_all_inputs: self.show_all_inputs,
            qso_w: self.qso_w,
            view_hz: Some((self.view.f_lo, self.view.f_hi)),
            theme: self.theme.word(),
            forget_min: self.forget_min as i64,
            fade_secs: self.fade_secs,
            rig_keying: self.rig.tag(),
            address: self.address,
            rig_more: self.rig_more,
        }
    }

    /// The window with settings restored over it, given the modes that they name
    /// and the mode that conversations start in.
    pub open spec fn restored(self, s: SettingsView, wanted: Seq<ModeId>, start_in: ModeId) -> DeskView {
        let address = readdressed(self.address, s.address);
        DeskView {
            text_px: within(s.text_px as int, 8_000, 22_000) as i64,
            waterfall_w: s.waterfall_w,
            span_s: within(s.span_s as int, 10 * SECOND, 120 * SECOND) as i64,
            scroll_secs: within(s.scroll_secs as int, 0, 2 * SECOND) as i64,
            speed: within(s.speed as int, 1_000, 20_000) as i64,
            modes: only(self.modes, wanted),
            preferred_input: s.input_device,
            preferred_output: s.output_device,
            show_all_inputs: s.show_all_inputs,
            qso_w: within(s.qso_w as int, MIN_QSO_W as int, MAX_QSO_W as int) as i64,
            view: self.view.fitted(match s.view_hz {
                Some(v) => Some(v),
                None => Some((self.view.band_lo, self.view.band_hi)),
            }),
            theme: theme_saved_as(s.theme),
            default_mode: start_in,
            forget_min: within(s.forget_min as int, 0, MAX_FORGET_MIN as int) as u32,
            fade_secs: within(s.fade_secs as int, 0, MAX_FADE_S as int) as i64,
            rig: keying_named(s.rig_keying, address),
            address,
            rig_more: s.rig_more,
        }
    }
}

/// `x`, cut to `lo..=hi`.
fn fit(x: i64, lo: i64, hi: i64) -> (r: i64)
    ensures
        r == within(x as int, lo as int, hi as int),
{
    if x < lo {
        lo
    } else if x > hi {
        hi
    } else {
        x
    }
}

/// Whether there is nothing in a text but blanks.
fn is_blank(s: &String) -> (r: bool)
    ensures
        r <==> trim(s@).len() == 0,
{
    let chars = to_chars(s.as_str());
    trimmed(&chars).len() == 0
}

/// A copy of a text that may be missing.
fn copy_of(s: &Option<String>) -> (t: Option<String>)
    ensures
        maybe(t) == maybe(*s),
{
    match s {
        Some(x) => Some(x.clone()),
        None => None,
    }
}

impl Settings {
    /// What a fresh install starts with, listening for the modes named and
    /// opening conversations in `default_mode`, with a rig's cable on `device`.
    ///
    /// Text goes after a quarter of an hour, which is longer than the pause in
    /// the middle of a ragchew and shorter than the gap that means it ended.
    pub fn fresh(modes: Vec<String>, default_mode: String, device: &str) -> (s: Settings)
        ensures
            s@ == (SettingsView {
                text_px: 14_000,
                waterfall_w: 300_000,
                span_s: (45 * SECOND) as i64,
                scroll_secs: SECOND,
                speed: 8_000,
                input_device: None,
                output_device: None,
                show_all_inputs: false,
                qso_w: 340_000,
                view_hz: None,
                theme: "auto"@,
                forget_min: 15_000,
                fade_secs: (8 * SECOND) as i64,
                rig_keying: "none"@,
                address: AddressView {
                    host: DEFAULT_RIG_HOST@,
                    port: DEFAULT_RIG_PORT,
                    device: device@,
                    baud: DEFAULT_RIG_BAUD,
                },
                rig_more: false,
            }),
            s.modes == modes,
            s.default_mode == default_mode,
    {
        Settings {
            text_px: 14_000,
            waterfall_w: 300_000,
            span_s: 45 * SECOND,
            scroll_secs: SECOND,
            speed: 8_000,
            modes,
            input_device: None,
            output_device: None,
            show_all_inputs: false,
            qso_w: 340_000,
            view_hz: None,
            theme: Theme::Auto.name().to_owned(),
            default_mode,
            forget_min: 15_000,
            fade_secs: 8 * SECOND,
            rig_keying: "none".to_owned(),
            rig_host: DEFAULT_RIG_HOST.to_owned(),
            rig_port: DEFAULT_RIG_PORT,
            rig_device: device.to_owned(),
            rig_baud: DEFAULT_RIG_BAUD,
            rig_more: false,
        }
    }
}

impl Desk {
    /// A window before any settings have been restored, on a band `lo..hi`, with
    /// all of `modes` listened for.
    pub fn base(lo: MilliHz, hi: MilliHz, modes: Vec<ModeId>, default_mode: ModeId, device: &str) -> (d: Desk)
        requires
            lo < hi,
        ensures
            d@.wf(),
            d@.text_px == 14_000,
            d@.waterfall_w == 300_000,
            d@.span_s == 45 * SECOND,
            d@.scroll_secs == SECOND,
            d@.speed == 8_000,
            d@.modes == modes@.map_values(|m: ModeId| (m, true)),
            d@.preferred_input is None,
            d@.preferred_output is None,
            !d@.show_all_inputs,
            d@.qso_w == 340_000,
            d@.view == (Panorama { band_lo: lo, band_hi: hi, f_lo: lo, f_hi: hi }),
            d@.theme == Theme::Auto,
            d@.default_mode == default_mode,
            d@.forget_min == 15_000,
            d@.fade_secs == 8 * SECOND,
            d@.rig is Nothing,
            d@.address == (AddressView {
                host: DEFAULT_RIG_HOST@,
                port: DEFAULT_RIG_PORT,
                device: device@,
                baud: DEFAULT_RIG_BAUD,
            }),
            !d@.rig_more,
    {
        let mut list: Vec<(ModeId, bool)> = Vec::new();
        let mut i: usize = 0;
        while i < modes.len()
            invariant
                0 <= i <= modes@.len(),
                list@.len() == i,
                forall|j: int| 0 <= j < i ==> #[trigger] list@[j] == (modes@[j], true),
            decreases modes@.len() - i,
        {
            list.push((modes[i], true));
            i += 1;
        }
        assert(list@ =~= modes@.map_values(|m: ModeId| (m, true)));
        proof {
            crate::rig::tags_are_distinct();
        }
        Desk {
            text_px: 14_000,
            waterfall_w: 300_000,
            span_s: 45 * SECOND,
            scroll_secs: SECOND,
            speed: 8_000,
            modes: list,
            preferred_input: None,
            preferred_output: None,
            show_all_inputs: false,
            qso_w: 340_000,
            view: Panorama::of_band(lo, hi),
            theme: Theme::default(),
            default_mode,
            forget_min: 15_000,
            fade_secs: 8 * SECOND,
            rig: Keying::Nothing,
            address: RigAddress {
                host: DEFAULT_RIG_HOST.to_owned(),
                port: DEFAULT_RIG_PORT,
                device: device.to_owned(),
                baud: DEFAULT_RIG_BAUD,
            },
            rig_more: false,
        }
    }

    /// Restore saved settings, given the modes that they name and the mode that
    /// conversations start in, as far as those names are known.
    pub fn apply(&mut self, s: Settings, wanted: &Vec<ModeId>, start_in: Option<ModeId>, otherwise: ModeId)
        requires
            old(self)@.view.full() > 0,
        ensures
            final(self)@ == old(self)@.restored(
                s@,
                wanted@,
                match start_in {
                    Some(m) => m,
                    None => otherwise,
                },
            ),
            final(self)@.wf(),
    {
        let ghost was = self@;
        let ghost saved = s@;
        self.text_px = fit(s.text_px, 8_000, 22_000);
        self.waterfall_w = s.waterfall_w;
        self.span_s = fit(s.span_s, 10 * SECOND, 120 * SECOND);
        self.scroll_secs = fit(s.scroll_secs, 0, 2 * SECOND);
        self.speed = fit(s.speed, 1_000, 20_000);
        self.preferred_input = s.input_device;
        self.preferred_output = s.output_device;
        self.show_all_inputs = s.show_all_inputs;
        self.qso_w = fit(s.qso_w, MIN_QSO_W, MAX_QSO_W);
        self.forget_min = fit(s.forget_min, 0, MAX_FORGET_MIN as i64) as u32;
        self.fade_secs = fit(s.fade_secs, 0, MAX_FADE_S);
        if !is_blank(&s.rig_host) {
            self.address.host = s.rig_host;
        }
        if s.rig_port != 0 {
            self.address.port = s.rig_port;
        }
        if !is_blank(&s.rig_device) {
            self.address.device = s.rig_device;
        }
        if s.rig_baud != 0 {
            self.address.baud = s.rig_baud;
        }
        self.rig_more = s.rig_more;
        self.rig = self.address.keying_for(s.rig_keying.as_str());
        self.theme = saved_theme(s.theme.as_str());
        self.default_mode = match start_in {
            Some(m) => m,
            None => otherwise,
        };
        let (lo, hi) = (self.view.band_lo, self.view.band_hi);
        self.view.set_view(match s.view_hz {
            Some(v) => Some(v),
            None => Some((lo, hi)),
        });
        listen_for(&mut self.modes, wanted);
        proof {
            crate::rig::tags_are_distinct();
            assert(self@.address =~= readdressed(was.address, saved.address));
            assert(self@ =~= was.restored(
                saved,
                wanted@,
                match start_in {
                    Some(m) => m,
                    None => otherwise,
                },
            ));
        }
    }

    /// The current state of everything that persists, given the names of the
    /// modes listened for and of the one that conversations start in.
    pub fn settings(&self, modes: Vec<String>, default_mode: String) -> (s: Settings)
        ensures
            s@ == self@.saved(),
            s.modes == modes,
            s.default_mode == default_mode,
    {
        Settings {
            text_px: self.text_px,
            waterfall_w: self.waterfall_w,
            span_s: self.span_s,
            scroll_secs: self.scroll_secs,
            speed: self.speed,
            modes,
            input_device: copy_of(&self.preferred_input),
            output_device: copy_of(&self.preferred_output),
            show_all_inputs: self.show_all_inputs,
            qso_w: self.qso_w,
            view_hz: Some((self.view.f_lo, self.view.f_hi)),
            theme: self.theme.name().to_owned(),
            default_mode,
            forget_min: self.forget_min as i64,
            fade_secs: self.fade_secs,
            rig_keying: keying_tag(&self.rig).to_owned(),
            rig_host: self.address.host.clone(),
            rig_port: self.address.port,
            rig_device: self.address.device.clone(),
            rig_baud: self.address.baud,
            rig_more: self.rig_more,
        }
    }

    /// The modes currently being listened for.
    pub fn enabled_modes(&self) -> (on: Vec<ModeId>)
        ensures
            on@ == enabled(self@.modes),
    {
        enabled_modes(&self.modes)
    }
}

/// Settings round-trip: a window saved and restored over any other on the same
/// band comes back as it was. A window that listens for nothing is not saved as
/// such, and an address that is blank or zero is not saved at all.
pub proof fn settings_round_trip(was: DeskView, over: DeskView)
    requires
        was.wf(),
        over.view.band_lo == was.view.band_lo,
        over.view.band_hi == was.view.band_hi,
        same_list(was.modes, over.modes),
        enabled(was.modes).len() > 0,
        trim(was.address.host).len() > 0,
        trim(was.address.device).len() > 0,
        was.address.port != 0,
        was.address.baud != 0,
    ensures
        over.restored(was.saved(), enabled(was.modes), was.default_mode) == was,
{
    let r = over.restored(was.saved(), enabled(was.modes), was.default_mode);
    the_list_comes_back(was.modes, over.modes);
    themes_round_trip(was.theme);
    assert(r.address =~= was.address);
    assert(r.view == was.view);
    assert(r =~= was);
}

/// Whatever a settings file says, the window that it restores can be used.
pub proof fn no_settings_are_unusable(over: DeskView, s: SettingsView, wanted: Seq<ModeId>, start_in: ModeId)
    requires
        over.view.wf(),
    ensures
        over.restored(s, wanted, start_in).wf(),
        enabled(over.modes).len() > 0 && wanted.len() == 0 ==> enabled(
            over.restored(s, wanted, start_in).modes,
        ).len() > 0,
{
    crate::rig::tags_are_distinct();
}

/// A setting in its range is restored as it was written, and one outside of it goes
/// to the end of the range that is nearer.
pub proof fn settings_are_kept_to_their_ranges(over: DeskView, s: SettingsView, wanted: Seq<ModeId>, start_in: ModeId)
    ensures
        ({
            let d = over.restored(s, wanted, start_in);
            &&& nearest_in(d.text_px as int, s.text_px as int, 8_000, 22_000)
            &&& nearest_in(d.span_s as int, s.span_s as int, 120_000_000, 1_440_000_000)
            &&& nearest_in(d.scroll_secs as int, s.scroll_secs as int, 0, 24_000_000)
            &&& nearest_in(d.speed as int, s.speed as int, 1_000, 20_000)
            &&& nearest_in(d.qso_w as int, s.qso_w as int, 240_000, 900_000)
            &&& nearest_in(d.forget_min as int, s.forget_min as int, 0, 120_000)
            &&& nearest_in(d.fade_secs as int, s.fade_secs as int, 0, 720_000_000)
        }),
{
}

/// Whether `x` is what of `lo..=hi` is nearest to `want`.
pub open spec fn nearest_in(x: int, want: int, lo: int, hi: int) -> bool {
    &&& lo <= x <= hi
    &&& lo <= want <= hi ==> x == want
    &&& want < lo ==> x == lo
    &&& want > hi ==> x == hi
}

/// An address that was left blank, or zero, keeps what there was, and one that was
/// filled in replaces it.
pub proof fn a_blank_address_is_left_alone(now: AddressView, saved: AddressView)
    ensures
        (forall|i: int| 0 <= i < saved.host.len() ==> white_space(#[trigger] saved.host[i])) ==> readdressed(
            now,
            saved,
        ).host == now.host,
        (exists|i: int| 0 <= i < saved.host.len() && !white_space(#[trigger] saved.host[i])) ==> readdressed(
            now,
            saved,
        ).host == saved.host,
        (forall|i: int| 0 <= i < saved.device.len() ==> white_space(#[trigger] saved.device[i])) ==> readdressed(
            now,
            saved,
        ).device == now.device,
        (exists|i: int| 0 <= i < saved.device.len() && !white_space(#[trigger] saved.device[i])) ==> readdressed(
            now,
            saved,
        ).device == saved.device,
        saved.port == 0 ==> readdressed(now, saved).port == now.port,
        saved.port != 0 ==> readdressed(now, saved).port == saved.port,
        saved.baud == 0 ==> readdressed(now, saved).baud == now.baud,
        saved.baud != 0 ==> readdressed(now, saved).baud == saved.baud,
{
    crate::transmit_laws::blanks_alone_are_nothing_to_send(saved.host);
    crate::transmit_laws::blanks_alone_are_nothing_to_send(saved.device);
}

/// Devices, modes and the way of keying are restored as they were written.
pub proof fn choices_are_restored(over: DeskView, s: SettingsView, wanted: Seq<ModeId>, start_in: ModeId, i: int)
    requires
        0 <= i < over.modes.len(),
    ensures
        ({
            let d = over.restored(s, wanted, start_in);
            &&& d.preferred_input == s.input_device
            &&& d.preferred_output == s.output_device
            &&& d.show_all_inputs == s.show_all_inputs
            &&& d.default_mode == start_in
            &&& d.rig_more == s.rig_more
            &&& d.modes.len() == over.modes.len()
            &&& d.modes[i].0 == over.modes[i].0
            &&& wanted.len() > 0 ==> (d.modes[i].1 <==> wanted.contains(over.modes[i].0))
            &&& wanted.len() == 0 ==> d.modes[i].1 == over.modes[i].1
        }),
{
}

} // verus!
