use std::collections::VecDeque;
use vstd::prelude::*;

use crate::number::{decimal, decimal_chars};
use crate::power::{
    BatteryInfo, InstantPower, PowerSettings, ProcessDetail, ProcessPower, WakeEvent, WakeStats,
};
use crate::text::{chars_before, chars_of, same_chars, str_before, string_from_chars};

verus! {

broadcast use vstd::string::group_string_axioms;

/// Times are nanoseconds of a monotonic clock that the caller reads.
/// How long a status message stays in the footer.
pub const STATUS_TTL_NS: u64 = 4_000_000_000;

/// `pmset -g log` is read once in this many polls: it always prints the whole
/// history, which takes a second or more.
pub const WAKE_LOG_EVERY_N_TICKS: u32 = 8;

/// How many events the live feed keeps.
pub const WAKE_FEED_CAP: usize = 40;

/// How many of the events seen first seed the feed.
pub const WAKE_FEED_SEED: usize = 5;

/// A poll fetches the settings early and the snapshot lands a second or two
/// later, so a snapshot can carry the settings from before a toggle the user
/// has just made. For this long after a toggle, incoming settings are ignored.
pub const SETTINGS_OVERRIDE_LOCK_NS: u64 = 3_000_000_000;

/// One poll's readings; a reading that failed is `None`.
pub struct Snapshot {
    pub battery: Option<BatteryInfo>,
    pub instant_power: Option<InstantPower>,
    pub wake: Option<WakeStats>,
    pub settings: Option<PowerSettings>,
    pub processes: Vec<ProcessPower>,
    pub new_wake_events: Option<Vec<WakeEvent>>,
}

/// Whether poll number `tick` reads the sleep and wake log.
pub fn wake_log_due(tick: u32) -> (b: bool)
    ensures
        b == (tick % WAKE_LOG_EVERY_N_TICKS == 0),
{
    tick % WAKE_LOG_EVERY_N_TICKS == 0
}

/// The switches that can be flipped from the UI.
#[derive(Debug, Clone, Copy, PartialEq, Eq, Structural)]
pub enum Setting {
    PowerNap,
    Womp,
    LowPowerMode,
    Standby,
    TcpKeepAlive,
}

impl Setting {
    /// The `pmset` key of the switch.
    pub open spec fn spec_key(self) -> Seq<char> {
        match self {
            Setting::PowerNap => "powernap"@,
            Setting::Womp => "womp"@,
            Setting::LowPowerMode => "lowpowermode"@,
            Setting::Standby => "standby"@,
            Setting::TcpKeepAlive => "tcpkeepalive"@,
        }
    }

    pub fn key(&self) -> (k: &'static str)
        ensures
            k@ == self.spec_key(),
    {
        match self {
            Setting::PowerNap => "powernap",
            Setting::Womp => "womp",
            Setting::LowPowerMode => "lowpowermode",
            Setting::Standby => "standby",
            Setting::TcpKeepAlive => "tcpkeepalive",
        }
    }

    /// The switch's value in `s`.
    pub open spec fn spec_value_in(self, s: PowerSettings) -> bool {
        match self {
            Setting::PowerNap => s.powernap,
            Setting::Womp => s.womp,
            Setting::LowPowerMode => s.lowpowermode,
            Setting::Standby => s.standby,
            Setting::TcpKeepAlive => s.tcpkeepalive,
        }
    }

    pub fn value_in(&self, s: &PowerSettings) -> (b: bool)
        ensures
            b == self.spec_value_in(*s),
    {
        match self {
            Setting::PowerNap => s.powernap,
            Setting::Womp => s.womp,
            Setting::LowPowerMode => s.lowpowermode,
            Setting::Standby => s.standby,
            Setting::TcpKeepAlive => s.tcpkeepalive,
        }
    }

    /// `s` with the switch set to `v`.
    pub open spec fn spec_set_in(self, s: PowerSettings, v: bool) -> PowerSettings {
        match self {
            Setting::PowerNap => PowerSettings { powernap: v, ..s },
            Setting::Womp => PowerSettings { womp: v, ..s },
            Setting::LowPowerMode => PowerSettings { lowpowermode: v, ..s },
            Setting::Standby => PowerSettings { standby: v, ..s },
            Setting::TcpKeepAlive => PowerSettings { tcpkeepalive: v, ..s },
        }
    }
}

/// The switch that a `pmset` key names.
pub open spec fn setting_named(key: Seq<char>) -> Option<Setting> {
    if key == "powernap"@ {
        Some(Setting::PowerNap)
    } else if key == "womp"@ {
        Some(Setting::Womp)
    } else if key == "lowpowermode"@ {
        Some(Setting::LowPowerMode)
    } else if key == "standby"@ {
        Some(Setting::Standby)
    } else if key == "tcpkeepalive"@ {
        Some(Setting::TcpKeepAlive)
    } else {
        None
    }
}

/// Each switch's key names that switch.
pub proof fn lemma_setting_named_key(st: Setting)
    ensures
        setting_named(st.spec_key()) == Some(st),
{
    reveal_strlit("powernap");
    reveal_strlit("womp");
    reveal_strlit("lowpowermode");
    reveal_strlit("standby");
    reveal_strlit("tcpkeepalive");
    assert("womp"@ != "powernap"@) by {
        assert("womp"@.len() != "powernap"@.len());
    }
    assert("lowpowermode"@ != "powernap"@) by {
        assert("lowpowermode"@[0] != "powernap"@[0]);
    }
    assert("lowpowermode"@ != "womp"@) by {
        assert("lowpowermode"@.len() != "womp"@.len());
    }
    assert("standby"@ != "powernap"@) by {
        assert("standby"@.len() != "powernap"@.len());
    }
    assert("standby"@ != "womp"@) by {
        assert("standby"@.len() != "womp"@.len());
    }
    assert("standby"@ != "lowpowermode"@) by {
        assert("standby"@.len() != "lowpowermode"@.len());
    }
    assert("tcpkeepalive"@ != "powernap"@) by {
        assert("tcpkeepalive"@.len() != "powernap"@.len());
    }
    assert("tcpkeepalive"@ != "womp"@) by {
        assert("tcpkeepalive"@.len() != "womp"@.len());
    }
    assert("tcpkeepalive"@ != "lowpowermode"@) by {
        assert("tcpkeepalive"@[0] != "lowpowermode"@[0]);
    }
    assert("tcpkeepalive"@ != "standby"@) by {
        assert("tcpkeepalive"@.len() != "standby"@.len());
    }
}

pub fn setting_from_key(key: &str) -> (r: Option<Setting>)
    ensures
        r == setting_named(key@),
{
    let k = chars_of(key);
    if same_chars(k.as_slice(), chars_of("powernap").as_slice()) {
        Some(Setting::PowerNap)
    } else if same_chars(k.as_slice(), chars_of("womp").as_slice()) {
        Some(Setting::Womp)
    } else if same_chars(k.as_slice(), chars_of("lowpowermode").as_slice()) {
        Some(Setting::LowPowerMode)
    } else if same_chars(k.as_slice(), chars_of("standby").as_slice()) {
        Some(Setting::Standby)
    } else if same_chars(k.as_slice(), chars_of("tcpkeepalive").as_slice()) {
        Some(Setting::TcpKeepAlive)
    } else {
        None
    }
}

/// The events strictly later than `t`, in order.
pub open spec fn newer_than(es: Seq<WakeEvent>, t: Seq<char>) -> Seq<WakeEvent>
    decreases es.len(),
{
    if es.len() == 0 {
        Seq::empty()
    } else if str_before(t, es.last().timestamp@) {
        newer_than(es.drop_last(), t).push(es.last())
    } else {
        newer_than(es.drop_last(), t)
    }
}

/// The last `WAKE_FEED_SEED` events.
pub open spec fn seed_of(es: Seq<WakeEvent>) -> Seq<WakeEvent> {
    if es.len() > WAKE_FEED_SEED {
        es.skip(es.len() - WAKE_FEED_SEED)
    } else {
        es
    }
}

/// The last `WAKE_FEED_CAP` events.
pub open spec fn capped(s: Seq<WakeEvent>) -> Seq<WakeEvent> {
    if s.len() > WAKE_FEED_CAP {
        s.skip(s.len() - WAKE_FEED_CAP)
    } else {
        s
    }
}

/// The feed after the full log `es` is read: the first read seeds it with the
/// last few events; a later read adds the events newer than the newest seen
/// before; only the last `WAKE_FEED_CAP` are kept.
pub open spec fn merged_feed(feed: Seq<WakeEvent>, last: Option<String>, es: Seq<WakeEvent>) -> Seq<
    WakeEvent,
> {
    if es.len() == 0 {
        feed
    } else {
        capped(
            feed + match last {
                None => seed_of(es),
                Some(t) => newer_than(es, t@),
            },
        )
    }
}

/// The newest timestamp seen after the full log `es` is read.
pub open spec fn merged_last(last: Option<String>, es: Seq<WakeEvent>) -> Option<String> {
    if es.len() == 0 {
        last
    } else {
        Some(es.last().timestamp)
    }
}

fn copy_event(e: &WakeEvent) -> (r: WakeEvent)
    ensures
        r == *e,
{
    WakeEvent { timestamp: e.timestamp.clone(), kind: e.kind, reason: e.reason.clone() }
}

/// The index of the first process with pid `pid`.
pub open spec fn position_of(ps: Seq<ProcessPower>, pid: u32) -> Option<int>
    decreases ps.len(),
{
    if ps.len() == 0 {
        None
    } else if ps[0].pid == pid {
        Some(0)
    } else {
        match position_of(ps.drop_first(), pid) {
            Some(i) => Some(i + 1),
            None => None,
        }
    }
}

pub proof fn lemma_position_of(ps: Seq<ProcessPower>, pid: u32)
    ensures
        match position_of(ps, pid) {
            Some(i) => 0 <= i < ps.len() && ps[i].pid == pid && forall|j: int|
                0 <= j < i ==> #[trigger] ps[j].pid != pid,
            None => forall|j: int| 0 <= j < ps.len() ==> #[trigger] ps[j].pid != pid,
        },
    decreases ps.len(),
{
    if ps.len() > 0 {
        lemma_position_of(ps.drop_first(), pid);
        assert forall|j: int| 1 <= j < ps.len() implies ps[j].pid == ps.drop_first()[j - 1].pid by {}
    }
}

fn find_process(ps: &Vec<ProcessPower>, pid: u32) -> (r: Option<usize>)
    ensures
        match r {
            Some(i) => position_of(ps@, pid) == Some(i as int),
            None => position_of(ps@, pid) is None,
        },
{
    let n = ps.len();
    let mut i: usize = 0;
    assert(ps@.skip(0) =~= ps@);
    while i < n
        invariant
            i <= n == ps@.len(),
            position_of(ps@, pid) == match position_of(ps@.skip(i as int), pid) {
                Some(k) => Some(k + i),
                None => None,
            },
        decreases n - i,
    {
        assert(ps@.skip(i as int).drop_first() =~= ps@.skip(i + 1));
        assert(ps@.skip(i as int)[0] == ps@[i as int]);
        if ps[i].pid == pid {
            return Some(i);
        }
        i += 1;
    }
    assert(ps@.skip(n as int) =~= Seq::<ProcessPower>::empty());
    None
}

/// The state of the monitor: the latest readings, the selection, the popups, the
/// live feed of sleep and wake events, and the footer's status message.
pub struct App {
    pub battery: Option<BatteryInfo>,
    pub instant_power: Option<InstantPower>,
    pub wake: Option<WakeStats>,
    pub settings: Option<PowerSettings>,
    pub processes: Vec<ProcessPower>,
    pub selected_pid: Option<u32>,
    pub detail: Option<ProcessDetail>,
    pub show_detail: bool,
    pub show_help: bool,
    pub pending_kill: Option<(u32, String)>,
    /// The live feed of sleep and wake events, oldest first.
    pub wake_feed: VecDeque<WakeEvent>,
    /// The timestamp of the newest event read from the log so far.
    pub last_wake_timestamp: Option<String>,
    /// The footer's status message.
    pub status: Option<String>,
    /// When the status message was set.
    pub status_set_at: Option<u64>,
    /// Until when incoming settings are ignored.
    pub settings_override_until: Option<u64>,
    /// Whether a sudo session was established at start.
    pub sudo_ok: bool,
}

impl App {
    pub fn new(sudo_ok: bool) -> (app: App)
        ensures
            app.battery is None,
            app.instant_power is None,
            app.wake is None,
            app.settings is None,
            app.processes@.len() == 0,
            app.selected_pid is None,
            app.detail is None,
            !app.show_detail,
            !app.show_help,
            app.pending_kill is None,
            app.wake_feed@.len() == 0,
            app.last_wake_timestamp is None,
            app.status is None,
            app.status_set_at is None,
            app.settings_override_until is None,
            app.sudo_ok == sudo_ok,
    {
        App {
            battery: None,
            instant_power: None,
            wake: None,
            settings: None,
            processes: Vec::new(),
            selected_pid: None,
            detail: None,
            show_detail: false,
            show_help: false,
            pending_kill: None,
            wake_feed: VecDeque::new(),
            last_wake_timestamp: None,
            status: None,
            status_set_at: None,
            settings_override_until: None,
            sudo_ok,
        }
    }

    /// Shows `msg` in the footer from `now` on, until `tick_status` clears it.
    pub fn set_status(&mut self, msg: String, now: u64)
        ensures
            *final(self) == (App { status: Some(msg), status_set_at: Some(now), ..*old(self) }),
    {
        self.status = Some(msg);
        self.status_set_at = Some(now);
    }

    /// The status message has been shown for longer than `STATUS_TTL_NS`.
    pub open spec fn status_expired(self, now: u64) -> bool {
        self.status_set_at matches Some(t) && now > t && now - t > STATUS_TTL_NS
    }

    /// Clears a status message that has been shown for longer than the TTL.
    pub fn tick_status(&mut self, now: u64)
        ensures
            *final(self) == if old(self).status_expired(now) {
                App { status: None, status_set_at: None, ..*old(self) }
            } else {
                *old(self)
            },
    {
        match self.status_set_at {
            Some(t) => {
                if now.saturating_sub(t) > STATUS_TTL_NS {
                    self.status = None;
                    self.status_set_at = None;
                }
            },
            None => {},
        }
    }

    /// The row of the selected process: the first with the selected pid, else 0.
    pub open spec fn spec_selected_index(self) -> int {
        match self.selected_pid {
            Some(pid) => match position_of(self.processes@, pid) {
                Some(i) => i,
                None => 0,
            },
            None => 0,
        }
    }

    /// The selection follows a pid rather than a row: the list is sorted anew
    /// at every poll, and a fixed row would then point at another process.
    pub fn selected_index(&self) -> (i: usize)
        ensures
            i == self.spec_selected_index(),
    {
        match self.selected_pid {
            Some(pid) => match find_process(&self.processes, pid) {
                Some(i) => i,
                None => 0,
            },
            None => 0,
        }
    }

    /// The selection one row down, staying on the last row.
    pub open spec fn selected_pid_after_next(self) -> Option<u32> {
        if self.processes@.len() == 0 {
            self.selected_pid
        } else {
            let idx = self.spec_selected_index() + 1;
            let last = self.processes@.len() - 1;
            Some(self.processes@[if idx < last { idx } else { last }].pid)
        }
    }

    /// The selection one row up, staying on the first row.
    pub open spec fn selected_pid_after_prev(self) -> Option<u32> {
        if self.processes@.len() == 0 {
            self.selected_pid
        } else {
            let idx = self.spec_selected_index();
            Some(self.processes@[if idx > 0 { idx - 1 } else { 0 }].pid)
        }
    }

    /// Selects the process one row down, staying on the last row.
    pub fn select_next(&mut self)
        ensures
            *final(self) == (App { selected_pid: old(self).selected_pid_after_next(), ..*old(self) }),
    {
        if self.processes.len() == 0 {
            return;
        }
        let idx = self.selected_index();
        proof {
            if let Some(pid) = self.selected_pid {
                lemma_position_of(self.processes@, pid);
            }
        }
        let last = self.processes.len() - 1;
        let next = if idx + 1 < last {
            idx + 1
        } else {
            last
        };
        self.selected_pid = Some(self.processes[next].pid);
    }

    /// Selects the process one row up, staying on the first row.
    pub fn select_prev(&mut self)
        ensures
            *final(self) == (App { selected_pid: old(self).selected_pid_after_prev(), ..*old(self) }),
    {
        if self.processes.len() == 0 {
            return;
        }
        let idx = self.selected_index();
        proof {
            if let Some(pid) = self.selected_pid {
                lemma_position_of(self.processes@, pid);
            }
        }
        let prev = idx.saturating_sub(1);
        self.selected_pid = Some(self.processes[prev].pid);
    }

    fn merge_wake_events(&mut self, events: Vec<WakeEvent>)
        ensures
            *final(self) == (App {
                wake_feed: final(self).wake_feed,
                last_wake_timestamp: final(self).last_wake_timestamp,
                ..*old(self)
            }),
            final(self).wake_feed@ == merged_feed(
                old(self).wake_feed@,
                old(self).last_wake_timestamp,
                events@,
            ),
            final(self).last_wake_timestamp == merged_last(old(self).last_wake_timestamp, events@),
    {
        let n = events.len();
        if n == 0 {
            return;
        }
        let newest = events[n - 1].timestamp.clone();
        let ghost old_feed = self.wake_feed@;
        let ghost pre = *self;
        match &self.last_wake_timestamp {
            None => {
                let start = n.saturating_sub(WAKE_FEED_SEED);
                let mut i = start;
                while i < n
                    invariant
                        start <= i <= n == events@.len(),
                        start == if n > WAKE_FEED_SEED { n - WAKE_FEED_SEED } else { 0 },
                        *self == (App { wake_feed: self.wake_feed, ..pre }),
                        self.wake_feed@ == old_feed + events@.subrange(start as int, i as int),
                    decreases n - i,
                {
                    let e = copy_event(&events[i]);
                    self.wake_feed.push_back(e);
                    assert(events@.subrange(start as int, i + 1) =~= events@.subrange(
                        start as int,
                        i as int,
                    ).push(events@[i as int]));
                    i += 1;
                }
                assert(events@.subrange(start as int, n as int) =~= seed_of(events@));
            },
            Some(last) => {
                let last_chars = chars_of(last.as_str());
                let mut i: usize = 0;
                while i < n
                    invariant
                        i <= n == events@.len(),
                        last_chars@ == last@,
                        *self == (App { wake_feed: self.wake_feed, ..pre }),
                        self.wake_feed@ == old_feed + newer_than(events@.take(i as int), last@),
                    decreases n - i,
                {
                    let ghost t = events@.take(i + 1);
                    assert(t.drop_last() =~= events@.take(i as int));
                    assert(t.last() == events@[i as int]);
                    let ts = chars_of(events[i].timestamp.as_str());
                    if chars_before(last_chars.as_slice(), ts.as_slice()) {
                        let e = copy_event(&events[i]);
                        self.wake_feed.push_back(e);
                        assert(self.wake_feed@ =~= old_feed + newer_than(t, last@));
                    }
                    i += 1;
                }
                assert(events@.take(n as int) =~= events@);
            },
        }
        let ghost all = self.wake_feed@;
        self.last_wake_timestamp = Some(newest);
        while self.wake_feed.len() > WAKE_FEED_CAP
            invariant
                capped(self.wake_feed@) == capped(all),
                *self == (App {
                    wake_feed: self.wake_feed,
                    last_wake_timestamp: Some(newest),
                    ..pre
                }),
            decreases self.wake_feed@.len(),
        {
            let ghost before = self.wake_feed@;
            self.wake_feed.pop_front();
            assert(capped(self.wake_feed@) =~= capped(before));
        }
    }

    /// Takes in a poll's readings: each reading that came keeps its new value,
    /// except incoming settings while they are locked; a non-empty process list
    /// replaces the old one and selects its first process where none was
    /// selected; a read of the log is merged into the feed.
    pub fn apply(&mut self, snap: Snapshot, now: u64)
        ensures
            final(self).battery == if snap.battery is Some {
                snap.battery
            } else {
                old(self).battery
            },
            final(self).instant_power == if snap.instant_power is Some {
                snap.instant_power
            } else {
                old(self).instant_power
            },
            final(self).wake == if snap.wake is Some {
                snap.wake
            } else {
                old(self).wake
            },
            final(self).settings == old(self).settings_after_poll(snap.settings, now),
            final(self).processes@ == if snap.processes@.len() > 0 {
                snap.processes@
            } else {
                old(self).processes@
            },
            final(self).selected_pid == if snap.processes@.len() > 0
                && old(self).selected_pid is None {
                Some(snap.processes@[0].pid)
            } else {
                old(self).selected_pid
            },
            match snap.new_wake_events {
                Some(es) => {
                    &&& final(self).wake_feed@ == merged_feed(
                        old(self).wake_feed@,
                        old(self).last_wake_timestamp,
                        es@,
                    )
                    &&& final(self).last_wake_timestamp == merged_last(
                        old(self).last_wake_timestamp,
                        es@,
                    )
                },
                None => {
                    &&& final(self).wake_feed@ == old(self).wake_feed@
                    &&& final(self).last_wake_timestamp == old(self).last_wake_timestamp
                },
            },
            final(self).detail == old(self).detail,
            final(self).show_detail == old(self).show_detail,
            final(self).show_help == old(self).show_help,
            final(self).pending_kill == old(self).pending_kill,
            final(self).status == old(self).status,
            final(self).status_set_at == old(self).status_set_at,
            final(self).settings_override_until == old(self).settings_override_until,
            final(self).sudo_ok == old(self).sudo_ok,
    {
        if snap.battery.is_some() {
            self.battery = snap.battery;
        }
        if snap.instant_power.is_some() {
            self.instant_power = snap.instant_power;
        }
        if snap.wake.is_some() {
            self.wake = snap.wake;
        }
        if snap.settings.is_some() {
            let locked = match self.settings_override_until {
                Some(t) => now < t,
                None => false,
            };
            if !locked {
                self.settings = snap.settings;
            }
        }
        if snap.processes.len() > 0 {
            if self.selected_pid.is_none() {
                self.selected_pid = Some(snap.processes[0].pid);
            }
            self.processes = snap.processes;
        }
        match snap.new_wake_events {
            Some(events) => {
                self.merge_wake_events(events);
            },
            None => {},
        }
    }

    /// Incoming settings are ignored: a toggle was made less than
    /// `SETTINGS_OVERRIDE_LOCK_NS` ago.
    pub open spec fn settings_locked(self, now: u64) -> bool {
        self.settings_override_until matches Some(t) && now < t
    }

    /// The state after a toggle of `key` to `v` at `now`.
    pub open spec fn toggled(self, key: Seq<char>, v: bool, now: u64) -> App {
        match (self.settings, setting_named(key)) {
            (Some(s), Some(st)) => App {
                settings: Some(st.spec_set_in(s, v)),
                settings_override_until: Some((now + SETTINGS_OVERRIDE_LOCK_NS) as u64),
                ..self
            },
            (Some(_), None) => self,
            (None, _) => App {
                settings_override_until: Some((now + SETTINGS_OVERRIDE_LOCK_NS) as u64),
                ..self
            },
        }
    }

    /// The settings after a poll that brought `incoming` at `now`.
    pub open spec fn settings_after_poll(self, incoming: Option<PowerSettings>, now: u64) -> Option<
        PowerSettings,
    > {
        if incoming is Some && !self.settings_locked(now) {
            incoming
        } else {
            self.settings
        }
    }

    /// Shows a toggle that succeeded at once, without waiting for the next poll,
    /// and ignores incoming settings for `SETTINGS_OVERRIDE_LOCK_NS`. With
    /// settings loaded and a key that names no switch, nothing changes.
    pub fn apply_toggle(&mut self, key: &str, new_value: bool, now: u64)
        requires
            now + SETTINGS_OVERRIDE_LOCK_NS <= u64::MAX,
        ensures
            *final(self) == old(self).toggled(key@, new_value, now),
    {
        match self.settings {
            Some(s) => {
                let st = match setting_from_key(key) {
                    Some(st) => st,
                    None => {
                        return;
                    },
                };
                let updated = match st {
                    Setting::PowerNap => PowerSettings { powernap: new_value, ..s },
                    Setting::Womp => PowerSettings { womp: new_value, ..s },
                    Setting::LowPowerMode => PowerSettings { lowpowermode: new_value, ..s },
                    Setting::Standby => PowerSettings { standby: new_value, ..s },
                    Setting::TcpKeepAlive => PowerSettings { tcpkeepalive: new_value, ..s },
                };
                self.settings = Some(updated);
            },
            None => {},
        }
        self.settings_override_until = Some(now + SETTINGS_OVERRIDE_LOCK_NS);
    }

    /// The name shown when asking to confirm a kill: the command of the first
    /// listed process with that pid, else the pid.
    pub open spec fn kill_name(self, pid: u32) -> Seq<char> {
        match position_of(self.processes@, pid) {
            Some(i) => self.processes@[i].command@,
            None => decimal(pid as nat),
        }
    }

    /// `after` is this state once a kill of the selected process has been asked
    /// for at `now`: without a selection, the status says so; else the kill
    /// of the selected pid, under its name, waits for confirmation.
    pub open spec fn kill_requested(self, after: App, now: u64) -> bool {
        match self.selected_pid {
            None => {
                &&& after == (App { status: after.status, status_set_at: Some(now), ..self })
                &&& after.status matches Some(m)
                &&& m@ == "no process selected"@
            },
            Some(pid) => {
                &&& after == (App { pending_kill: after.pending_kill, ..self })
                &&& after.pending_kill matches Some((p, name))
                &&& p == pid
                &&& name@ == self.kill_name(pid)
            },
        }
    }

    /// Asks to confirm a kill of the selected process.
    pub fn request_kill(&mut self, now: u64)
        ensures
            old(self).kill_requested(*final(self), now),
    {
        match self.selected_pid {
            None => {
                self.set_status(String::from_str("no process selected"), now);
            },
            Some(pid) => {
                proof {
                    lemma_position_of(self.processes@, pid);
                }
                let name = match find_process(&self.processes, pid) {
                    Some(i) => self.processes[i].command.clone(),
                    None => {
                        let d = decimal_chars(pid as u64);
                        string_from_chars(d.as_slice())
                    },
                };
                self.pending_kill = Some((pid, name));
            },
        }
    }
}


// ---------------------------------------------------------------------------
// Laws
// ---------------------------------------------------------------------------

/// The live feed never holds more than `WAKE_FEED_CAP` events: a read of the
/// log trims it to the cap, and a feed within the cap stays within it.
pub proof fn law_feed_capped(feed: Seq<WakeEvent>, last: Option<String>, es: Seq<WakeEvent>)
    requires
        feed.len() <= WAKE_FEED_CAP || es.len() > 0,
    ensures
        merged_feed(feed, last, es).len() <= WAKE_FEED_CAP,
{
}

/// The first read of the log adds at most `WAKE_FEED_SEED` events to the feed:
/// the last ones of the log, in order.
pub proof fn law_first_read_seeds(es: Seq<WakeEvent>)
    ensures
        seed_of(es).len() <= WAKE_FEED_SEED,
        seed_of(es) == es.subrange(es.len() - seed_of(es).len(), es.len() as int),
{
    assert(seed_of(es) =~= es.subrange(es.len() - seed_of(es).len(), es.len() as int));
}

proof fn lemma_newer_than(es: Seq<WakeEvent>, t: Seq<char>)
    ensures
        forall|i: int|
            0 <= i < newer_than(es, t).len() ==> {
                &&& es.contains(#[trigger] newer_than(es, t)[i])
                &&& str_before(t, newer_than(es, t)[i].timestamp@)
            },
    decreases es.len(),
{
    if es.len() > 0 {
        lemma_newer_than(es.drop_last(), t);
        let prev = newer_than(es.drop_last(), t);
        assert forall|i: int| 0 <= i < newer_than(es, t).len() implies es.contains(
            #[trigger] newer_than(es, t)[i],
        ) && str_before(t, newer_than(es, t)[i].timestamp@) by {
            if i < prev.len() {
                assert(newer_than(es, t)[i] == prev[i]);
                let j = choose|j: int| 0 <= j < es.drop_last().len() && es.drop_last()[j] == prev[i];
                assert(es[j] == prev[i]);
            } else {
                assert(es[es.len() - 1] == es.last());
            }
        }
    }
}

/// After the first read, a read of the log adds only events of that read that
/// are strictly newer than the newest event seen before: every event of the new
/// feed was in the feed before, or is such an event.
pub proof fn law_later_reads_add_only_newer(feed: Seq<WakeEvent>, t: String, es: Seq<WakeEvent>)
    ensures
        forall|i: int|
            0 <= i < merged_feed(feed, Some(t), es).len() ==> {
                let e = #[trigger] merged_feed(feed, Some(t), es)[i];
                feed.contains(e) || (es.contains(e) && str_before(t@, e.timestamp@))
            },
{
    lemma_newer_than(es, t@);
    if es.len() > 0 {
        let all = feed + newer_than(es, t@);
        let m = merged_feed(feed, Some(t), es);
        assert forall|i: int| 0 <= i < m.len() implies {
            let e = #[trigger] m[i];
            feed.contains(e) || (es.contains(e) && str_before(t@, e.timestamp@))
        } by {
            let k = if all.len() > WAKE_FEED_CAP {
                i + all.len() - WAKE_FEED_CAP
            } else {
                i
            };
            assert(m[i] == all[k]);
            if k < feed.len() {
                assert(feed[k] == all[k]);
            } else {
                assert(all[k] == newer_than(es, t@)[k - feed.len()]);
            }
        }
    }
}

/// The events kept as newer than `t` are exactly the events whose timestamp
/// comes after `t` in string order, in the order of the log.
pub proof fn law_newer_than_keeps_exactly_later(es: Seq<WakeEvent>, t: Seq<char>)
    ensures
        newer_than(es, t) == es.filter(|e: WakeEvent| str_before(t, e.timestamp@)),
    decreases es.len(),
{
    reveal_with_fuel(Seq::<_>::filter, 1);
    if es.len() > 0 {
        law_newer_than_keeps_exactly_later(es.drop_last(), t);
    }
}

/// After the first read, a read of the log appends to the feed every event of
/// that read whose timestamp comes after the newest timestamp seen before (in
/// string order), in log order, and nothing else; then only the last
/// `WAKE_FEED_CAP` events are kept.
pub proof fn law_later_read_appends_all_later(feed: Seq<WakeEvent>, t: String, es: Seq<WakeEvent>)
    requires
        es.len() > 0,
    ensures
        ({
            let all = feed + es.filter(|e: WakeEvent| str_before(t@, e.timestamp@));
            merged_feed(feed, Some(t), es) == if all.len() > WAKE_FEED_CAP {
                all.skip(all.len() - WAKE_FEED_CAP)
            } else {
                all
            }
        }),
{
    law_newer_than_keeps_exactly_later(es, t@);
}

/// A toggle outlasts a poll whose settings were read before it: for
/// `SETTINGS_OVERRIDE_LOCK_NS` after a toggle of a switch (or any toggle made
/// before the settings are loaded), incoming settings leave the settings as the
/// toggle set them.
pub proof fn law_toggle_outlasts_stale_settings(
    a: App,
    key: Seq<char>,
    v: bool,
    t: u64,
    incoming: Option<PowerSettings>,
    now: u64,
)
    requires
        t + SETTINGS_OVERRIDE_LOCK_NS <= u64::MAX,
        t <= now < t + SETTINGS_OVERRIDE_LOCK_NS,
        a.settings is None || setting_named(key) is Some,
    ensures
        a.toggled(key, v, t).settings_after_poll(incoming, now) == a.toggled(key, v, t).settings,
{
}

/// Once the lock has run out, incoming settings are taken again.
pub proof fn law_lock_runs_out(a: App, key: Seq<char>, v: bool, t: u64, s: PowerSettings, now: u64)
    requires
        t + SETTINGS_OVERRIDE_LOCK_NS <= u64::MAX,
        now >= t + SETTINGS_OVERRIDE_LOCK_NS,
        a.settings is None || setting_named(key) is Some,
    ensures
        a.toggled(key, v, t).settings_after_poll(Some(s), now) == Some(s),
{
}

/// A status message shown at `t` stays until `tick_status` runs more than
/// `STATUS_TTL_NS` later, and is then cleared.
pub proof fn law_status_lasts_ttl(a: App, msg: String, t: u64, now: u64)
    ensures
        (App { status: Some(msg), status_set_at: Some(t), ..a }).status_expired(now) <==> (now > t
            && now - t > STATUS_TTL_NS),
{
}

/// With processes listed, the selected row is one of them.
pub proof fn law_selection_in_range(a: App)
    ensures
        a.processes@.len() > 0 ==> 0 <= a.spec_selected_index() < a.processes@.len(),
        a.processes@.len() == 0 ==> a.spec_selected_index() == 0,
{
    if let Some(pid) = a.selected_pid {
        lemma_position_of(a.processes@, pid);
    }
}

/// The selection follows its process when the list is sorted anew: where the
/// selected pid is listed, the selected row shows that process.
pub proof fn law_selection_follows_pid(a: App, pid: u32)
    requires
        a.selected_pid == Some(pid),
        exists|i: int| 0 <= i < a.processes@.len() && #[trigger] a.processes@[i].pid == pid,
    ensures
        a.processes@[a.spec_selected_index()].pid == pid,
{
    lemma_position_of(a.processes@, pid);
}

/// No two listed processes share a pid.
pub open spec fn distinct_pids(ps: Seq<ProcessPower>) -> bool {
    forall|i: int, j: int| 0 <= i < j < ps.len() ==> ps[i].pid != ps[j].pid
}

proof fn lemma_position_of_distinct(ps: Seq<ProcessPower>, k: int)
    requires
        distinct_pids(ps),
        0 <= k < ps.len(),
    ensures
        position_of(ps, ps[k].pid) == Some(k),
{
    lemma_position_of(ps, ps[k].pid);
    match position_of(ps, ps[k].pid) {
        Some(i) => {
            if i < k {
                assert(ps[i].pid != ps[k].pid);
            } else if i > k {
                assert(ps[k].pid != ps[k].pid);
            }
        },
        None => {
            assert(ps[k].pid != ps[k].pid);
        },
    }
}

/// Moving the selection down and then up returns to the same process, where
/// the pids are distinct and the selection is not on the last row.
pub proof fn law_next_then_prev(a: App)
    requires
        distinct_pids(a.processes@),
        a.spec_selected_index() + 1 < a.processes@.len(),
    ensures
        (App { selected_pid: a.selected_pid_after_next(), ..a }).selected_pid_after_prev() == Some(
            a.processes@[a.spec_selected_index()].pid,
        ),
{
    law_selection_in_range(a);
    let k = a.spec_selected_index() + 1;
    lemma_position_of_distinct(a.processes@, k);
}

/// Moving the selection lands on a listed process.
pub proof fn law_moves_select_listed(a: App)
    requires
        a.processes@.len() > 0,
    ensures
        a.selected_pid_after_next() matches Some(p) && exists|i: int|
            0 <= i < a.processes@.len() && #[trigger] a.processes@[i].pid == p,
        a.selected_pid_after_prev() matches Some(p) && exists|i: int|
            0 <= i < a.processes@.len() && #[trigger] a.processes@[i].pid == p,
{
    law_selection_in_range(a);
}

} // verus!
