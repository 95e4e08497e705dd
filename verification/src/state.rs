//! The state of the headphone list and the decisions taken on it.

use vstd::prelude::*;

use crate::bluez::{Headphone, HeadphoneView};
use crate::pactl::{first_with_profile, opt_view, CodecOption, CodecOptionView};
use crate::sort::views;
use crate::text::{concat3, decimal, decimal_string, str_eq};
use vstd::arithmetic::div_mod::{
    lemma_fundamental_div_mod, lemma_fundamental_div_mod_converse, lemma_mod_bound,
};

verus! {

/// The list of connected headphones, the selected row and the status line.
pub struct App {
    pub devices: Vec<Headphone>,
    pub selected: usize,
    pub status: String,
}

pub struct AppView {
    pub devices: Seq<HeadphoneView>,
    pub selected: usize,
    pub status: Seq<char>,
}

impl View for App {
    type V = AppView;

    open spec fn view(&self) -> AppView {
        AppView { devices: views(self.devices@), selected: self.selected, status: self.status@ }
    }
}

/// The selection points at a device, or at 0 when there is none.
pub open spec fn selection_valid(app: AppView) -> bool {
    if app.devices.len() == 0 {
        app.selected == 0
    } else {
        app.selected < app.devices.len()
    }
}

/// The status line after a successful refresh that found `count` devices.
pub open spec fn refreshed_status(count: nat) -> Seq<char> {
    "Connected bluetooth headphones: "@ + decimal(count)
        + " | \u{2191}/\u{2193} select | \u{2190}/\u{2192} codec"@
}

/// The view of the outcome of a device query.
pub open spec fn query_view(result: Result<Vec<Headphone>, String>) -> Result<
    Seq<HeadphoneView>,
    Seq<char>,
> {
    match result {
        Ok(devices) => Ok(views(devices@)),
        Err(e) => Err(e@),
    }
}

/// The view of the outcome of a command.
pub open spec fn outcome_view(result: Result<(), String>) -> Result<(), Seq<char>> {
    match result {
        Ok(()) => Ok(()),
        Err(e) => Err(e@),
    }
}

/// The state after a refresh with the outcome of a device query: the devices
/// found, with the selection kept where it still fits; or, on failure, no devices.
pub open spec fn refreshed(app: AppView, result: Result<Seq<HeadphoneView>, Seq<char>>) -> AppView {
    match result {
        Ok(devices) => {
            let last: int = if devices.len() == 0 {
                0
            } else {
                devices.len() - 1
            };
            AppView {
                devices,
                selected: if app.selected <= last {
                    app.selected
                } else {
                    last as usize
                },
                status: refreshed_status(devices.len()),
            }
        },
        Err(e) => AppView { devices: Seq::empty(), selected: 0, status: "BlueZ query failed: "@ + e },
    }
}

/// The selection moved one row down, stopping at the last device.
pub open spec fn selected_next(app: AppView) -> AppView {
    if app.devices.len() == 0 {
        app
    } else if app.selected + 1 <= app.devices.len() - 1 {
        AppView { selected: (app.selected + 1) as usize, ..app }
    } else {
        AppView { selected: (app.devices.len() - 1) as usize, ..app }
    }
}

/// The selection moved one row up, stopping at the first.
pub open spec fn selected_previous(app: AppView) -> AppView {
    AppView {
        selected: if app.selected == 0 {
            0
        } else {
            (app.selected - 1) as usize
        },
        ..app
    }
}

/// The row of a device's current codec option: that of its active profile, else
/// the first; none when it has no codec options.
pub open spec fn selected_codec_index_spec(device: HeadphoneView) -> Option<int> {
    let options = device.codec_options;
    if options.len() == 0 {
        None
    } else {
        match device.active_profile {
            Some(p) => if exists|i: int| 0 <= i < options.len() && options[i].profile == p {
                Some(first_with_profile(options, p))
            } else {
                Some(0)
            },
            None => Some(0),
        }
    }
}

/// The row `delta` rows away from `current`, counted around `len` rows.
pub open spec fn cycled_index(current: int, delta: int, len: int) -> int {
    (current + delta) % len
}

/// A codec switch under way: the card and profile asked for, the device it is
/// for, and how far it has come.
pub struct CodecSwitch {
    pub card_name: String,
    pub address: String,
    pub name: String,
    pub option: CodecOption,
    pub stage: SwitchStage,
}

/// How far a codec switch has come.
#[derive(Clone, Copy, PartialEq, Eq, Structural)]
pub enum SwitchStage {
    /// The profile has been asked for.
    SettingProfile,
    /// The devices are being read again.
    Refreshing { used_reconnect: bool },
    /// The device is being reconnected.
    Reconnecting,
    /// Nothing more is to be done.
    Done,
}

/// What was done for a codec switch and how it went.
pub enum SwitchEvent {
    /// `pactl set-card-profile` was run.
    ProfileSet(Result<(), String>),
    /// The devices were read again.
    Refreshed(Result<Vec<Headphone>, String>),
    /// `bluetoothctl` disconnected and connected the device.
    Reconnected(Result<(), String>),
}

pub enum SwitchEventView {
    ProfileSet(Result<(), Seq<char>>),
    Refreshed(Result<Seq<HeadphoneView>, Seq<char>>),
    Reconnected(Result<(), Seq<char>>),
}

impl View for SwitchEvent {
    type V = SwitchEventView;

    open spec fn view(&self) -> SwitchEventView {
        match self {
            SwitchEvent::ProfileSet(r) => SwitchEventView::ProfileSet(outcome_view(*r)),
            SwitchEvent::Refreshed(r) => SwitchEventView::Refreshed(query_view(*r)),
            SwitchEvent::Reconnected(r) => SwitchEventView::Reconnected(outcome_view(*r)),
        }
    }
}

/// What is to be done next for a codec switch.
#[derive(Clone, Copy, PartialEq, Eq, Structural)]
pub enum SwitchAction {
    /// Wait for the audio server, then read the devices again.
    Refresh,
    /// Disconnect and connect the device again.
    Reconnect,
    /// The switch is over; `refreshed` tells whether the devices were read for it.
    Finish { refreshed: bool },
}

pub struct CodecSwitchView {
    pub card_name: Seq<char>,
    pub address: Seq<char>,
    pub name: Seq<char>,
    pub option: CodecOptionView,
    pub stage: SwitchStage,
}

impl View for CodecSwitch {
    type V = CodecSwitchView;

    open spec fn view(&self) -> CodecSwitchView {
        CodecSwitchView {
            card_name: self.card_name@,
            address: self.address@,
            name: self.name@,
            option: self.option@,
            stage: self.stage,
        }
    }
}

/// The switch that choosing codec option `option_index` of the selected device
/// starts, or else the status line that says why none starts.
pub open spec fn switch_plan(app: AppView, option_index: int) -> Result<CodecSwitchView, Seq<char>> {
    if app.selected >= app.devices.len() {
        Err("No bluetooth headphones available"@)
    } else {
        let device = app.devices[app.selected as int];
        match device.card_name {
            None => Err(device.name + " has no PulseAudio/PipeWire card"@),
            Some(card_name) => if device.codec_options.len() == 0 {
                Err(device.name + " has no switchable codec profiles"@)
            } else if option_index >= device.codec_options.len() {
                Err(device.name + " has no codec option "@ + decimal((option_index + 1) as nat))
            } else {
                Ok(
                    CodecSwitchView {
                        card_name,
                        address: device.address,
                        name: device.name,
                        option: device.codec_options[option_index],
                        stage: SwitchStage::SettingProfile,
                    },
                )
            },
        }
    }
}

/// Option `option_index` is asked of the selected device, which has a card and
/// codec options but not that many.
pub open spec fn asks_missing_option(app: AppView, option_index: int) -> bool {
    &&& app.selected < app.devices.len()
    &&& app.devices[app.selected as int].card_name is Some
    &&& app.devices[app.selected as int].codec_options.len() > 0
    &&& option_index >= app.devices[app.selected as int].codec_options.len()
}

/// The first row whose device has address `address`.
pub open spec fn first_with_address(devices: Seq<HeadphoneView>, address: Seq<char>) -> Option<int>
    decreases devices.len(),
{
    if devices.len() == 0 {
        None
    } else if devices[0].address == address {
        Some(0)
    } else {
        match first_with_address(devices.drop_first(), address) {
            Some(i) => Some(i + 1),
            None => None,
        }
    }
}

/// The active profile of the selected device, `-` where there is none.
pub open spec fn active_profile_shown(devices: Seq<HeadphoneView>, selected: int) -> Seq<char> {
    if 0 <= selected < devices.len() {
        match devices[selected].active_profile {
            Some(p) => p,
            None => "-"@,
        }
    } else {
        "-"@
    }
}

/// The state after reading the devices again once a codec was asked for, and
/// whether the device now uses the profile asked for.
pub open spec fn after_switch(
    app: AppView,
    result: Result<Seq<HeadphoneView>, Seq<char>>,
    address: Seq<char>,
    name: Seq<char>,
    option: CodecOptionView,
    used_reconnect: bool,
) -> (AppView, bool) {
    match result {
        Ok(devices) => {
            let selected: int = match first_with_address(devices, address) {
                Some(i) => i,
                None => 0,
            };
            let active = active_profile_shown(devices, selected);
            if active == option.profile {
                let suffix = if used_reconnect {
                    " after reconnect"@
                } else {
                    ""@
                };
                (
                    AppView {
                        devices,
                        selected: selected as usize,
                        status: "Switched "@ + name + " to "@ + option.label + suffix,
                    },
                    true,
                )
            } else {
                (
                    AppView {
                        devices,
                        selected: selected as usize,
                        status: "Requested "@ + option.label + ", but active profile is "@ + active,
                    },
                    false,
                )
            }
        },
        Err(e) => (
            AppView {
                status: "Switched "@ + option.label + ", but refresh failed: "@ + e,
                ..app
            },
            false,
        ),
    }
}

/// An ignored switch to this option is retried with a reconnect: the option is
/// LDAC, or its profile is `a2dp-sink`.
pub open spec fn wants_reconnect(option: CodecOptionView) -> bool {
    option.label == "LDAC"@ || option.profile == "a2dp-sink"@
}

/// Whether the list is due for its periodic refresh, `elapsed_ms` milliseconds
/// after the last one: two seconds or more.
pub open spec fn refresh_due_spec(elapsed_ms: u128) -> bool {
    elapsed_ms >= 2000
}

/// One step of a codec switch: the state, the switch and the action after `event`.
/// Once the profile is set the devices are read again; where the device does not
/// use the profile then and the option asked for is LDAC (or its profile is
/// `a2dp-sink`), the device is reconnected once and
/// the devices are read again.
pub open spec fn switch_step(app: AppView, sw: CodecSwitchView, event: SwitchEventView) -> (
    AppView,
    CodecSwitchView,
    SwitchAction,
) {
    match (sw.stage, event) {
        (SwitchStage::SettingProfile, SwitchEventView::ProfileSet(Ok(()))) => (
            app,
            CodecSwitchView { stage: SwitchStage::Refreshing { used_reconnect: false }, ..sw },
            SwitchAction::Refresh,
        ),
        (SwitchStage::SettingProfile, SwitchEventView::ProfileSet(Err(e))) => (
            AppView { status: "Failed to switch "@ + sw.name + ": "@ + e, ..app },
            CodecSwitchView { stage: SwitchStage::Done, ..sw },
            SwitchAction::Finish { refreshed: false },
        ),
        (SwitchStage::Refreshing { used_reconnect }, SwitchEventView::Refreshed(result)) => {
            let (next, switched) = after_switch(
                app,
                result,
                sw.address,
                sw.name,
                sw.option,
                used_reconnect,
            );
            if !used_reconnect && !switched && wants_reconnect(sw.option) {
                (
                    next,
                    CodecSwitchView { stage: SwitchStage::Reconnecting, ..sw },
                    SwitchAction::Reconnect,
                )
            } else {
                (
                    next,
                    CodecSwitchView { stage: SwitchStage::Done, ..sw },
                    SwitchAction::Finish { refreshed: true },
                )
            }
        },
        (SwitchStage::Reconnecting, SwitchEventView::Reconnected(Ok(()))) => (
            app,
            CodecSwitchView { stage: SwitchStage::Refreshing { used_reconnect: true }, ..sw },
            SwitchAction::Refresh,
        ),
        (SwitchStage::Reconnecting, SwitchEventView::Reconnected(Err(e))) => (
            AppView { status: "Requested LDAC, but bluetooth reconnect failed: "@ + e, ..app },
            CodecSwitchView { stage: SwitchStage::Done, ..sw },
            SwitchAction::Finish { refreshed: true },
        ),
        _ => (app, sw, SwitchAction::Finish { refreshed: false }),
    }
}

/// The codec step from the selected device's current option fits the integer
/// range in which it is computed.
pub open spec fn codec_step_in_range(app: AppView, delta: int) -> bool {
    app.selected < app.devices.len() ==> match selected_codec_index_spec(
        app.devices[app.selected as int],
    ) {
        Some(current) => app.devices[app.selected as int].codec_options.len() <= isize::MAX
            && isize::MIN <= current + delta <= isize::MAX,
        None => true,
    }
}

proof fn lemma_negative_mod(s: int, n: int, m: int)
    requires
        s < 0,
        n > 0,
        m == (-s) % n,
    ensures
        s % n == if m == 0 {
            0
        } else {
            n - m
        },
{
    let q = (-s) / n;
    lemma_fundamental_div_mod(-s, n);
    assert(-s == n * q + m);
    assert(0 <= m < n) by {
        lemma_mod_bound(-s, n);
    }
    if m == 0 {
        assert(s == (-q) * n + 0) by (nonlinear_arith)
            requires
                -s == n * q + m,
                m == 0,
        ;
        lemma_fundamental_div_mod_converse(s, n, -q, 0);
    } else {
        assert(s == (-q - 1) * n + (n - m)) by (nonlinear_arith)
            requires
                -s == n * q + m,
        ;
        lemma_fundamental_div_mod_converse(s, n, -q - 1, n - m);
    }
}

/// The first row whose device has address `address`.
pub fn position_of_address(devices: &Vec<Headphone>, address: &str) -> (r: Option<usize>)
    ensures
        match r {
            Some(i) => first_with_address(views(devices@), address@) == Some(i as int),
            None => first_with_address(views(devices@), address@) is None,
        },
{
    let ghost dv = views(devices@);
    let mut i: usize = 0;
    assert(dv.subrange(0, dv.len() as int) =~= dv);
    while i < devices.len()
        invariant
            i <= devices@.len(),
            dv == views(devices@),
            first_with_address(dv, address@) == match first_with_address(
                dv.subrange(i as int, dv.len() as int),
                address@,
            ) {
                Some(k) => Some(k + i),
                None => None,
            },
        decreases devices.len() - i,
    {
        let ghost rest = dv.subrange(i as int, dv.len() as int);
        assert(rest[0] == devices@[i as int]@);
        if str_eq(devices[i].address.as_str(), address) {
            return Some(i);
        }
        assert(rest.drop_first() =~= dv.subrange(i + 1, dv.len() as int));
        i = i + 1;
    }
    assert(dv.subrange(i as int, dv.len() as int) =~= Seq::<HeadphoneView>::empty());
    None
}

/// Whether the list is due for its periodic refresh, `elapsed_ms` milliseconds
/// after the last one.
pub fn refresh_due(elapsed_ms: u128) -> (r: bool)
    ensures
        r == refresh_due_spec(elapsed_ms),
{
    elapsed_ms >= 2000
}

/// The index of a device's current codec option.
pub fn selected_codec_index(device: &Headphone) -> (r: Option<usize>)
    ensures
        match r {
            Some(i) => selected_codec_index_spec(device@) == Some(i as int) && i
                < device.codec_options@.len(),
            None => selected_codec_index_spec(device@) is None,
        },
{
    if device.codec_options.len() == 0 {
        return None;
    }
    let ghost ov = views(device.codec_options@);
    match &device.active_profile {
        None => Some(0),
        Some(p) => {
            let mut i: usize = 0;
            while i < device.codec_options.len()
                invariant
                    i <= device.codec_options@.len(),
                    ov == views(device.codec_options@),
                    opt_view(device.active_profile) == Some(p@),
                    forall|j: int| 0 <= j < i ==> (#[trigger] ov[j]).profile != p@,
                decreases device.codec_options.len() - i,
            {
                if str_eq(device.codec_options[i].profile.as_str(), p.as_str()) {
                    assert(ov[i as int] == device.codec_options@[i as int]@);
                    assert(0 <= i < ov.len() && ov[i as int].profile == p@ && forall|j: int|
                        0 <= j < i ==> (#[trigger] ov[j]).profile != p@);
                    let ghost f = first_with_profile(ov, p@);
                    assert(f == i as int) by {
                        if f > i {
                            assert(ov[i as int].profile != p@);
                        }
                    }
                    return Some(i);
                }
                i = i + 1;
            }
            Some(0)
        },
    }
}

impl App {
    /// Whether stepping the selected device's codec by `delta` stays in the
    /// integer range in which the step is computed.
    pub fn codec_step_fits(&self, delta: isize) -> (r: bool)
        ensures
            r == codec_step_in_range(self@, delta as int),
    {
        if self.selected >= self.devices.len() {
            return true;
        }
        let device = &self.devices[self.selected];
        assert(views(self.devices@)[self.selected as int] == device@);
        match selected_codec_index(device) {
            None => true,
            Some(current) => {
                let len = device.codec_options.len();
                let step: i128 = current as i128 + delta as i128;
                len as u128 <= isize::MAX as u128 && isize::MIN as i128 <= step && step
                    <= isize::MAX as i128
            },
        }
    }

    /// The state before any device has been read.
    pub fn new() -> (r: App)
        ensures
            r@.devices.len() == 0,
            r@.selected == 0,
            r@.status == "Press r to refresh, q to quit"@,
    {
        let r = App {
            devices: Vec::new(),
            selected: 0,
            status: "Press r to refresh, q to quit".to_owned(),
        };
        assert(views(r.devices@).len() == 0);
        r
    }

    /// Takes the outcome of reading the connected headphones.
    pub fn refresh(&mut self, result: Result<Vec<Headphone>, String>)
        ensures
            final(self)@ == refreshed(old(self)@, query_view(result)),
    {
        match result {
            Ok(devices) => {
                let count = devices.len();
                self.devices = devices;
                let last = if count == 0 {
                    0
                } else {
                    count - 1
                };
                if self.selected > last {
                    self.selected = last;
                }
                let number = decimal_string(count as u128);
                self.status = concat3(
                    "Connected bluetooth headphones: ",
                    number.as_str(),
                    " | \u{2191}/\u{2193} select | \u{2190}/\u{2192} codec",
                );
                assert(self.status@ == refreshed_status(count as nat));
            },
            Err(e) => {
                self.devices = Vec::new();
                self.selected = 0;
                self.status = concat3("BlueZ query failed: ", e.as_str(), "");
                proof {
                    reveal_strlit("");
                    assert(self.status@ =~= "BlueZ query failed: "@ + e@);
                    assert(views(self.devices@) =~= Seq::<HeadphoneView>::empty());
                }
            },
        }
        assert(self@ =~= refreshed(old(self)@, query_view(result)));
    }

    /// Moves the selection one row down, stopping at the last device.
    pub fn select_next(&mut self)
        requires
            old(self)@.devices.len() > 0 ==> old(self)@.selected < usize::MAX,
        ensures
            final(self)@ == selected_next(old(self)@),
    {
        let n = self.devices.len();
        if n > 0 {
            if self.selected < n - 1 {
                self.selected = self.selected + 1;
            } else {
                self.selected = n - 1;
            }
        }
    }

    /// Moves the selection one row up, stopping at the first.
    pub fn select_previous(&mut self)
        ensures
            final(self)@ == selected_previous(old(self)@),
    {
        if self.selected > 0 {
            self.selected = self.selected - 1;
        }
    }

    /// Starts switching the selected device to its codec option `delta` rows away
    /// from the current one, counted around; the switch to perform, if any.
    pub fn switch_selected_codec(&mut self, delta: isize) -> (r: Option<CodecSwitch>)
        requires
            codec_step_in_range(old(self)@, delta as int),
        ensures
            ({
                let app = old(self)@;
                if app.selected >= app.devices.len() {
                    r is None && final(self)@ == AppView {
                        status: "No bluetooth headphones available"@,
                        ..app
                    }
                } else {
                    let device = app.devices[app.selected as int];
                    match selected_codec_index_spec(device) {
                        None => r is None && final(self)@ == AppView {
                            status: device.name + " has no switchable codec profiles"@,
                            ..app
                        },
                        Some(current) => {
                            let next = cycled_index(
                                current,
                                delta as int,
                                device.codec_options.len() as int,
                            );
                            match switch_plan(app, next) {
                                Ok(sw) => r matches Some(s) && s@ == sw && final(self)@ == app,
                                Err(status) => r is None && final(self)@ == AppView {
                                    status,
                                    ..app
                                },
                            }
                        },
                    }
                }
            }),
    {
        if self.selected >= self.devices.len() {
            self.status = "No bluetooth headphones available".to_owned();
            return None;
        }
        let device = &self.devices[self.selected];
        assert(views(self.devices@)[self.selected as int] == device@);
        match selected_codec_index(device) {
            None => {
                self.status = concat3(device.name.as_str(), " has no switchable codec profiles", "");
                proof {
                    reveal_strlit("");
                }
                None
            },
            Some(current) => {
                let len = device.codec_options.len();
                let step: i128 = current as i128 + delta as i128;
                let n: u128 = len as u128;
                let next: usize = if step >= 0 {
                    let r: u128 = (step as u128) % n;
                    assert(r as int == (step as int) % (n as int));
                    r as usize
                } else {
                    let m: u128 = ((-step) as u128) % n;
                    proof {
                        lemma_negative_mod(step as int, n as int, m as int);
                    }
                    if m == 0 {
                        0
                    } else {
                        (n - m) as usize
                    }
                };
                self.switch_selected_codec_to(next)
            },
        }
    }

    /// Starts switching the selected device to its codec option `option_index`;
    /// the switch to perform, or else none, with the status line saying why.
    pub fn switch_selected_codec_to(&mut self, option_index: usize) -> (r: Option<CodecSwitch>)
        requires
            asks_missing_option(old(self)@, option_index as int) ==> option_index < usize::MAX,
        ensures
            match switch_plan(old(self)@, option_index as int) {
                Ok(sw) => r matches Some(s) && s@ == sw && final(self)@ == old(self)@,
                Err(status) => r is None && final(self)@ == AppView { status, ..old(self)@ },
            },
    {
        if self.selected >= self.devices.len() {
            self.status = "No bluetooth headphones available".to_owned();
            return None;
        }
        let device = &self.devices[self.selected];
        assert(views(self.devices@)[self.selected as int] == device@);
        let card_name = match &device.card_name {
            Some(c) => c.clone(),
            None => {
                self.status = concat3(device.name.as_str(), " has no PulseAudio/PipeWire card", "");
                proof {
                    reveal_strlit("");
                }
                return None;
            },
        };
        if device.codec_options.len() == 0 {
            self.status = concat3(device.name.as_str(), " has no switchable codec profiles", "");
            proof {
                reveal_strlit("");
            }
            return None;
        }
        if option_index >= device.codec_options.len() {
            let number = decimal_string((option_index + 1) as u128);
            self.status = concat3(device.name.as_str(), " has no codec option ", number.as_str());
            return None;
        }
        let option = device.codec_options[option_index].duplicate();
        assert(views(device.codec_options@)[option_index as int] == device.codec_options@[option_index as int]@);
        Some(
            CodecSwitch {
                card_name,
                address: device.address.clone(),
                name: device.name.clone(),
                option,
                stage: SwitchStage::SettingProfile,
            },
        )
    }

    /// Takes the devices read again after a codec was asked for, keeping the
    /// selection on the same device; whether it now uses the profile asked for.
    pub fn refresh_after_switch(
        &mut self,
        result: Result<Vec<Headphone>, String>,
        selected_address: &str,
        selected_name: &str,
        option: &CodecOption,
        used_reconnect: bool,
    ) -> (switched: bool)
        ensures
            (final(self)@, switched) == after_switch(
                old(self)@,
                query_view(result),
                selected_address@,
                selected_name@,
                option@,
                used_reconnect,
            ),
    {
        match result {
            Ok(devices) => {
                self.devices = devices;
                let ghost dv = views(self.devices@);
                self.selected = match position_of_address(&self.devices, selected_address) {
                    Some(i) => i,
                    None => 0,
                };
                let active = if self.selected < self.devices.len() {
                    match &self.devices[self.selected].active_profile {
                        Some(p) => p.clone(),
                        None => "-".to_owned(),
                    }
                } else {
                    "-".to_owned()
                };
                assert(active@ == active_profile_shown(dv, self.selected as int));
                if str_eq(active.as_str(), option.profile.as_str()) {
                    let mut status = concat3("Switched ", selected_name, " to ");
                    status.append(option.label.as_str());
                    if used_reconnect {
                        status.append(" after reconnect");
                    } else {
                        proof {
                            reveal_strlit("");
                        }
                    }
                    self.status = status;
                    true
                } else {
                    let mut status = concat3(
                        "Requested ",
                        option.label.as_str(),
                        ", but active profile is ",
                    );
                    status.append(active.as_str());
                    self.status = status;
                    false
                }
            },
            Err(e) => {
                let mut status = concat3("Switched ", option.label.as_str(), ", but refresh failed: ");
                status.append(e.as_str());
                self.status = status;
                false
            },
        }
    }

    /// Takes one step of a codec switch: what `event` tells of the last action
    /// changes the state and the switch; the next action is returned.
    pub fn advance_switch(&mut self, sw: &mut CodecSwitch, event: SwitchEvent) -> (action: SwitchAction)
        ensures
            (final(self)@, final(sw)@, action) == switch_step(old(self)@, old(sw)@, event@),
    {
        let ghost ev = event@;
        match (sw.stage, event) {
            (SwitchStage::SettingProfile, SwitchEvent::ProfileSet(Ok(()))) => {
                sw.stage = SwitchStage::Refreshing { used_reconnect: false };
                SwitchAction::Refresh
            },
            (SwitchStage::SettingProfile, SwitchEvent::ProfileSet(Err(e))) => {
                let mut status = concat3("Failed to switch ", sw.name.as_str(), ": ");
                status.append(e.as_str());
                self.status = status;
                sw.stage = SwitchStage::Done;
                SwitchAction::Finish { refreshed: false }
            },
            (SwitchStage::Refreshing { used_reconnect }, SwitchEvent::Refreshed(result)) => {
                let switched = self.refresh_after_switch(
                    result,
                    sw.address.as_str(),
                    sw.name.as_str(),
                    &sw.option,
                    used_reconnect,
                );
                if !used_reconnect && !switched && (str_eq(sw.option.label.as_str(), "LDAC")
                    || str_eq(sw.option.profile.as_str(), "a2dp-sink")) {
                    sw.stage = SwitchStage::Reconnecting;
                    SwitchAction::Reconnect
                } else {
                    sw.stage = SwitchStage::Done;
                    SwitchAction::Finish { refreshed: true }
                }
            },
            (SwitchStage::Reconnecting, SwitchEvent::Reconnected(Ok(()))) => {
                sw.stage = SwitchStage::Refreshing { used_reconnect: true };
                SwitchAction::Refresh
            },
            (SwitchStage::Reconnecting, SwitchEvent::Reconnected(Err(e))) => {
                self.status = concat3(
                    "Requested LDAC, but bluetooth reconnect failed: ",
                    e.as_str(),
                    "",
                );
                proof {
                    reveal_strlit("");
                }
                sw.stage = SwitchStage::Done;
                SwitchAction::Finish { refreshed: true }
            },
            _ => SwitchAction::Finish { refreshed: false },
        }
    }
}

} // verus!
