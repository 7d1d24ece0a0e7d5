use vstd::prelude::*;

use crate::actions::{kill_process, maybe_sudo, pmset_plan, toggle_bool_setting, CommandPlan};
use crate::app::{App, Setting, SETTINGS_OVERRIDE_LOCK_NS};
use crate::power::ProcessDetail;
use crate::number::{decimal, decimal_chars, signed_decimal, signed_decimal_chars};
use crate::text::string_from_chars;

verus! {

broadcast use vstd::string::group_string_axioms;

/// A key press, as far as the monitor tells keys apart.
#[derive(Debug, Clone, Copy, PartialEq, Eq, Structural)]
pub enum Key {
    Char(char),
    Esc,
    Enter,
    Up,
    Down,
    Other,
}

/// What the caller is to do after a key press.
#[derive(Debug, Clone, Copy, PartialEq, Eq, Structural)]
pub enum Command {
    Nothing,
    Quit,
    /// Send SIGTERM to the process that waits for confirmation.
    ConfirmKill,
    /// Read and show the selected process's details.
    ShowDetail,
    /// Change the selected process's nice value by this much.
    Renice(i32),
    /// Flip this switch.
    Toggle(Setting),
}

pub open spec fn closes_popup(key: Key) -> bool {
    key == Key::Char('q') || key == Key::Esc
}

/// The switch that a key flips.
pub open spec fn toggle_key(key: Key) -> Option<Setting> {
    if key == Key::Char('p') {
        Some(Setting::PowerNap)
    } else if key == Key::Char('w') {
        Some(Setting::Womp)
    } else if key == Key::Char('l') {
        Some(Setting::LowPowerMode)
    } else if key == Key::Char('s') {
        Some(Setting::Standby)
    } else if key == Key::Char('t') {
        Some(Setting::TcpKeepAlive)
    } else {
        None
    }
}

/// Each switch is flipped by the first letter of its `pmset` key (the letters
/// that the help and the footer name: p, w, l, s, t), and by no other key.
pub proof fn law_toggle_key_is_initial(st: Setting, k: Key)
    ensures
        toggle_key(Key::Char(st.spec_key()[0])) == Some(st),
        toggle_key(k) == Some(st) ==> k == Key::Char(st.spec_key()[0]),
{
    reveal_strlit("powernap");
    reveal_strlit("womp");
    reveal_strlit("lowpowermode");
    reveal_strlit("standby");
    reveal_strlit("tcpkeepalive");
}

/// The command of a key press that no popup takes.
pub open spec fn plain_command(key: Key) -> Command {
    if closes_popup(key) {
        Command::Quit
    } else if key == Key::Enter || key == Key::Char('i') {
        Command::ShowDetail
    } else if key == Key::Char('+') || key == Key::Char('=') {
        Command::Renice(1i32)
    } else if key == Key::Char('-') {
        Command::Renice(-1i32)
    } else {
        match toggle_key(key) {
            Some(st) => Command::Toggle(st),
            None => Command::Nothing,
        }
    }
}

/// With no popup open, `q` and Esc quit, Enter and `i` show details, `+` and
/// `=` raise the nice value by one and `-` lowers it by one, and a switch's
/// initial flips it; every other key does nothing.
pub proof fn law_plain_keys(k: Key)
    ensures
        (plain_command(k) == Command::Quit) <==> (k == Key::Char('q') || k == Key::Esc),
        (plain_command(k) == Command::ShowDetail) <==> (k == Key::Enter || k == Key::Char('i')),
        (plain_command(k) == Command::Renice(1i32)) <==> (k == Key::Char('+') || k == Key::Char(
            '=',
        )),
        (plain_command(k) == Command::Renice(-1i32)) <==> (k == Key::Char('-')),
        plain_command(k) matches Command::Renice(d) ==> d == 1 || d == -1,
        plain_command(k) matches Command::Toggle(st) ==> toggle_key(k) == Some(st),
        (plain_command(k) == Command::Nothing) <==> !(k == Key::Char('q') || k == Key::Esc || k
            == Key::Enter || k == Key::Char('i') || k == Key::Char('+') || k == Key::Char('=') || k
            == Key::Char('-') || k == Key::Char('p') || k == Key::Char('w') || k == Key::Char('l')
            || k == Key::Char('s') || k == Key::Char('t')),
{
}

fn toggle_of(key: Key) -> (r: Option<Setting>)
    ensures
        r == toggle_key(key),
{
    match key {
        Key::Char('p') => Some(Setting::PowerNap),
        Key::Char('w') => Some(Setting::Womp),
        Key::Char('l') => Some(Setting::LowPowerMode),
        Key::Char('s') => Some(Setting::Standby),
        Key::Char('t') => Some(Setting::TcpKeepAlive),
        _ => None,
    }
}

/// Handles a key press. A kill that waits for confirmation takes every key
/// first: `y` confirms it and any other key cancels it. The help popup comes
/// next: `q`, Esc and `?` close it and it swallows the other keys. The detail
/// popup closes on `q`, Esc, Enter and `i` and lets other keys through. Then
/// `q` and Esc quit, the arrows and `j`/`k` move the selection, Enter and `i`
/// show details, `?` opens the help, `K` asks to kill the selected process,
/// `+`/`=` and `-` renice it, and `p`, `w`, `l`, `s`, `t` flip switches.
pub fn handle_key(app: &mut App, key: Key, now: u64) -> (c: Command)
    ensures
        old(app).pending_kill is Some ==> {
            if key == Key::Char('y') || key == Key::Char('Y') {
                c == Command::ConfirmKill && *final(app) == *old(app)
            } else {
                c == Command::Nothing && *final(app) == (App { pending_kill: None, ..*old(app) })
            }
        },
        old(app).pending_kill is None && old(app).show_help ==> {
            &&& c == Command::Nothing
            &&& *final(app) == if closes_popup(key) || key == Key::Char('?') {
                App { show_help: false, ..*old(app) }
            } else {
                *old(app)
            }
        },
        old(app).pending_kill is None && !old(app).show_help && old(app).show_detail && (
        closes_popup(key) || key == Key::Enter || key == Key::Char('i')) ==> {
            c == Command::Nothing && *final(app) == (App { show_detail: false, ..*old(app) })
        },
        old(app).pending_kill is None && !old(app).show_help && !(old(app).show_detail && (
        closes_popup(key) || key == Key::Enter || key == Key::Char('i'))) ==> {
            if key == Key::Up || key == Key::Char('k') {
                c == Command::Nothing && final(app).selected_pid == old(app).selected_pid_after_prev()
                    && *final(app) == (App { selected_pid: final(app).selected_pid, ..*old(app) })
            } else if key == Key::Down || key == Key::Char('j') {
                c == Command::Nothing && final(app).selected_pid == old(app).selected_pid_after_next()
                    && *final(app) == (App { selected_pid: final(app).selected_pid, ..*old(app) })
            } else if key == Key::Char('?') {
                c == Command::Nothing && *final(app) == (App { show_help: true, ..*old(app) })
            } else if key == Key::Char('K') {
                c == Command::Nothing && old(app).kill_requested(*final(app), now)
            } else {
                c == plain_command(key) && *final(app) == *old(app)
            }
        },
{
    if app.pending_kill.is_some() {
        if key == Key::Char('y') || key == Key::Char('Y') {
            return Command::ConfirmKill;
        }
        app.pending_kill = None;
        return Command::Nothing;
    }
    if app.show_help {
        if key == Key::Char('q') || key == Key::Esc || key == Key::Char('?') {
            app.show_help = false;
        }
        return Command::Nothing;
    }
    if app.show_detail && (key == Key::Char('q') || key == Key::Esc || key == Key::Enter || key
        == Key::Char('i')) {
        app.show_detail = false;
        return Command::Nothing;
    }
    if key == Key::Char('q') || key == Key::Esc {
        return Command::Quit;
    }
    if key == Key::Up || key == Key::Char('k') {
        app.select_prev();
        return Command::Nothing;
    }
    if key == Key::Down || key == Key::Char('j') {
        app.select_next();
        return Command::Nothing;
    }
    if key == Key::Enter || key == Key::Char('i') {
        return Command::ShowDetail;
    }
    if key == Key::Char('?') {
        app.show_help = true;
        return Command::Nothing;
    }
    if key == Key::Char('K') {
        app.request_kill(now);
        return Command::Nothing;
    }
    if key == Key::Char('+') || key == Key::Char('=') {
        return Command::Renice(1);
    }
    if key == Key::Char('-') {
        return Command::Renice(-1);
    }
    match toggle_of(key) {
        Some(st) => Command::Toggle(st),
        None => Command::Nothing,
    }
}


// ---------------------------------------------------------------------------
// Status messages
// ---------------------------------------------------------------------------

/// `error: E`.
pub fn error_message(e: &str) -> (m: String)
    ensures
        m@ == "error: "@ + e@,
{
    let mut m = String::from_str("error: ");
    m.append(e);
    m
}

/// `KEY -> off` after a switch that was on was flipped, `KEY -> on` otherwise.
pub fn toggle_message(st: Setting, current: bool) -> (m: String)
    ensures
        m@ == st.spec_key() + " -> "@ + if current {
            "off"@
        } else {
            "on"@
        },
{
    let mut m = String::from_str(st.key());
    m.append(" -> ");
    m.append(
        if current {
            "off"
        } else {
            "on"
        },
    );
    m
}

/// `sent SIGTERM to NAME (PID)`.
pub fn kill_sent_message(name: &str, pid: u32) -> (m: String)
    ensures
        m@ == "sent SIGTERM to "@ + name@ + " ("@ + decimal(pid as nat) + ")"@,
{
    let mut m = String::from_str("sent SIGTERM to ");
    m.append(name);
    m.append(" (");
    let d = string_from_chars(decimal_chars(pid as u64).as_slice());
    m.append(d.as_str());
    m.append(")");
    m
}

/// `renice pid PID -> NICE`.
pub fn renice_message(pid: u32, nice: i32) -> (m: String)
    ensures
        m@ == "renice pid "@ + decimal(pid as nat) + " -> "@ + signed_decimal(nice as int),
{
    let mut m = String::from_str("renice pid ");
    let d = string_from_chars(decimal_chars(pid as u64).as_slice());
    m.append(d.as_str());
    m.append(" -> ");
    let v = string_from_chars(signed_decimal_chars(nice as i64).as_slice());
    m.append(v.as_str());
    m
}

/// The status shown when toggles are asked for without a sudo session.
pub open spec fn no_sudo_message() -> Seq<char> {
    "sudo unavailable \u{2014} restart napwatch to enable toggles"@
}

// ---------------------------------------------------------------------------
// The steps around the outside work of a command
// ---------------------------------------------------------------------------

impl App {
    /// Before flipping a switch: without a sudo session, or before the settings
    /// are loaded, the status says so and nothing is to be run; else the
    /// switch's current value and the command that flips it.
    pub fn prepare_toggle(&mut self, st: Setting, now: u64) -> (r: Option<(bool, CommandPlan)>)
        ensures
            !old(self).sudo_ok ==> {
                &&& r is None
                &&& final(self).status matches Some(m)
                &&& m@ == no_sudo_message()
                &&& *final(self) == (App {
                    status: final(self).status,
                    status_set_at: Some(now),
                    ..*old(self)
                })
            },
            old(self).sudo_ok && old(self).settings is None ==> {
                &&& r is None
                &&& final(self).status matches Some(m)
                &&& m@ == "settings not loaded yet"@
                &&& *final(self) == (App {
                    status: final(self).status,
                    status_set_at: Some(now),
                    ..*old(self)
                })
            },
            old(self).sudo_ok ==> (old(self).settings matches Some(s) ==> {
                &&& *final(self) == *old(self)
                &&& r matches Some((current, plan))
                &&& current == st.spec_value_in(s)
                &&& plan.model() == pmset_plan(
                    st.spec_key(),
                    if current {
                        "0"@
                    } else {
                        "1"@
                    },
                )
            }),
    {
        if !self.sudo_ok {
            self.set_status(
                String::from_str("sudo unavailable \u{2014} restart napwatch to enable toggles"),
                now,
            );
            return None;
        }
        match self.settings {
            Some(s) => {
                let current = st.value_in(&s);
                Some((current, toggle_bool_setting(st.key(), current)))
            },
            None => {
                self.set_status(String::from_str("settings not loaded yet"), now);
                None
            },
        }
    }

    /// After a flip succeeded: shows the new value at once, locks out incoming
    /// settings for a while, and says what was done.
    pub fn finish_toggle(&mut self, st: Setting, current: bool, now: u64)
        requires
            now + SETTINGS_OVERRIDE_LOCK_NS <= u64::MAX,
        ensures
            final(self).settings == match old(self).settings {
                Some(s) => Some(st.spec_set_in(s, !current)),
                None => None,
            },
            final(self).settings_override_until == Some((now + SETTINGS_OVERRIDE_LOCK_NS) as u64),
            ({
                &&& final(self).status matches Some(m)
                &&& m@ == st.spec_key() + " -> "@ + if current {
                    "off"@
                } else {
                    "on"@
                }
            }),
            *final(self) == (App {
                settings: final(self).settings,
                settings_override_until: final(self).settings_override_until,
                status: final(self).status,
                status_set_at: Some(now),
                ..*old(self)
            }),
    {
        proof {
            crate::app::lemma_setting_named_key(st);
        }
        self.apply_toggle(st.key(), !current, now);
        self.set_status(toggle_message(st, current), now);
    }

    /// Takes the kill that waits for confirmation, with the command that sends it.
    pub fn confirm_kill(&mut self) -> (r: Option<(u32, String, CommandPlan)>)
        ensures
            *final(self) == (App { pending_kill: None, ..*old(self) }),
            match old(self).pending_kill {
                Some((pid, name)) => {
                    &&& r matches Some((p, n, plan))
                    &&& p == pid
                    &&& n == name
                    &&& plan.model() == maybe_sudo(
                        "kill"@,
                        seq!["-TERM"@, decimal(pid as nat)],
                        old(self).sudo_ok,
                    )
                },
                None => r is None,
            },
    {
        match self.pending_kill.take() {
            Some((pid, name)) => Some((pid, name, kill_process(pid, self.sudo_ok))),
            None => None,
        }
    }

    /// The selected pid, for a command on the selected process; without a
    /// selection the status says so.
    pub fn selection_for_command(&mut self, now: u64) -> (r: Option<u32>)
        ensures
            r == old(self).selected_pid,
            old(self).selected_pid is Some ==> *final(self) == *old(self),
            old(self).selected_pid is None ==> {
                &&& final(self).status matches Some(m)
                &&& m@ == "no process selected"@
                &&& *final(self) == (App {
                    status: final(self).status,
                    status_set_at: Some(now),
                    ..*old(self)
                })
            },
    {
        match self.selected_pid {
            Some(pid) => Some(pid),
            None => {
                self.set_status(String::from_str("no process selected"), now);
                None
            },
        }
    }

    /// Shows a process's details in the popup.
    pub fn open_detail(&mut self, detail: ProcessDetail)
        ensures
            *final(self) == (App { detail: Some(detail), show_detail: true, ..*old(self) }),
    {
        self.detail = Some(detail);
        self.show_detail = true;
    }
}

} // verus!
