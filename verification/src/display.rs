use vstd::prelude::*;

use crate::app::App;
use crate::number::{decimal, decimal_chars};
use crate::power::{BatteryInfo, ProcessDetail};
use crate::text::{chars_of, lemma_split_on_len, split_char, split_on, string_from_chars, views};

verus! {

broadcast use vstd::string::group_string_axioms;

/// The colour of the battery gauge.
#[derive(Debug, Clone, Copy, PartialEq, Eq, Structural)]
pub enum GaugeColor {
    Red,
    Yellow,
    Green,
}

/// Red on battery at 20% or less, yellow at 50% or less, green above.
pub fn battery_color(b: &BatteryInfo) -> (c: GaugeColor)
    ensures
        c == if !b.on_ac && b.percentage <= 20 {
            GaugeColor::Red
        } else if b.percentage <= 50 {
            GaugeColor::Yellow
        } else {
            GaugeColor::Green
        },
{
    if !b.on_ac && b.percentage <= 20 {
        GaugeColor::Red
    } else if b.percentage <= 50 {
        GaugeColor::Yellow
    } else {
        GaugeColor::Green
    }
}

/// The gauge's text: `NN% (AC|Battery, charging|discharging[, T remaining]RATE)`,
/// where `rate` is the rendered power reading or empty.
pub open spec fn spec_battery_label(b: BatteryInfo, rate: Seq<char>) -> Seq<char> {
    decimal(b.percentage as nat) + "% ("@ + (if b.on_ac {
        "AC"@
    } else {
        "Battery"@
    }) + ", "@ + (if b.charging {
        "charging"@
    } else {
        "discharging"@
    }) + (match b.time_remaining {
        Some(t) => ", "@ + t@ + " remaining"@,
        None => Seq::empty(),
    }) + rate + ")"@
}

pub fn battery_label(b: &BatteryInfo, rate: &str) -> (s: String)
    ensures
        s@ == spec_battery_label(*b, rate@),
{
    let mut s = string_from_chars(decimal_chars(b.percentage as u64).as_slice());
    s.append("% (");
    s.append(
        if b.on_ac {
            "AC"
        } else {
            "Battery"
        },
    );
    s.append(", ");
    s.append(
        if b.charging {
            "charging"
        } else {
            "discharging"
        },
    );
    match &b.time_remaining {
        Some(t) => {
            s.append(", ");
            s.append(t.as_str());
            s.append(" remaining");
        },
        None => {},
    }
    s.append(rate);
    s.append(")");
    s
}

/// The time of a feed entry: the second space-separated part of its timestamp,
/// or the whole timestamp where there is none.
pub open spec fn spec_feed_time(ts: Seq<char>) -> Seq<char> {
    if split_on(ts, ' ').len() >= 2 {
        split_on(ts, ' ')[1]
    } else {
        ts
    }
}

pub fn feed_time(ts: &str) -> (t: String)
    ensures
        t@ == spec_feed_time(ts@),
{
    let cs = chars_of(ts);
    let parts = split_char(cs.as_slice(), ' ');
    if parts.len() >= 2 {
        assert(views(parts@)[1] == parts@[1]@);
        string_from_chars(parts[1].as_slice())
    } else {
        String::from_str(ts)
    }
}

/// The name a process is shown under: its bundle's name, else the last
/// `/`-separated part of its command.
pub open spec fn spec_display_name(d: ProcessDetail) -> Seq<char> {
    match d.bundle_name {
        Some(n) => n@,
        None => split_on(d.full_command@, '/').last(),
    }
}

pub fn process_display_name(detail: &ProcessDetail) -> (n: String)
    ensures
        n@ == spec_display_name(*detail),
{
    match &detail.bundle_name {
        Some(n) => n.clone(),
        None => {
            let cs = chars_of(detail.full_command.as_str());
            let parts = split_char(cs.as_slice(), '/');
            proof {
                lemma_split_on_len(cs@, '/');
            }
            let k = parts.len() - 1;
            assert(views(parts@)[k as int] == parts@[k as int]@);
            string_from_chars(parts[k].as_slice())
        },
    }
}

/// How the footer is drawn.
#[derive(Debug, Clone, Copy, PartialEq, Eq, Structural)]
pub enum FooterStyle {
    /// A kill waits for confirmation.
    Alert,
    /// Status or key hints.
    Quiet,
}

/// The key hints of the footer.
pub open spec fn hints(sudo_ok: bool) -> Seq<char> {
    "q quit   \u{2191}\u{2193}/jk select   Enter/i detail   ? help   K kill   +/- renice   "@
        + if sudo_ok {
        "p/w/l/s/t toggle settings"@
    } else {
        "(read-only: sudo unavailable, toggles disabled)"@
    }
}

/// The footer: the kill that waits for confirmation, else the status message,
/// else the key hints.
pub open spec fn spec_footer(app: App) -> (Seq<char>, FooterStyle) {
    match app.pending_kill {
        Some((pid, name)) => (
            "Kill "@ + name@ + " (pid "@ + decimal(pid as nat)
                + ")? [y] confirm   [any other key] cancel"@,
            FooterStyle::Alert,
        ),
        None => (
            match app.status {
                Some(m) => m@,
                None => hints(app.sudo_ok),
            },
            FooterStyle::Quiet,
        ),
    }
}

pub fn footer(app: &App) -> (r: (String, FooterStyle))
    ensures
        (r.0@, r.1) == spec_footer(*app),
{
    match &app.pending_kill {
        Some((pid, name)) => {
            let mut s = String::from_str("Kill ");
            s.append(name.as_str());
            s.append(" (pid ");
            let d = string_from_chars(decimal_chars(*pid as u64).as_slice());
            s.append(d.as_str());
            s.append(")? [y] confirm   [any other key] cancel");
            (s, FooterStyle::Alert)
        },
        None => {
            let text = match &app.status {
                Some(m) => m.clone(),
                None => {
                    let mut h = String::from_str(
                        "q quit   \u{2191}\u{2193}/jk select   Enter/i detail   ? help   K kill   +/- renice   ",
                    );
                    h.append(
                        if app.sudo_ok {
                            "p/w/l/s/t toggle settings"
                        } else {
                            "(read-only: sudo unavailable, toggles disabled)"
                        },
                    );
                    h
                },
            };
            (text, FooterStyle::Quiet)
        },
    }
}

} // verus!
