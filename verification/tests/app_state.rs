use napwatch::app::{
    setting_from_key, wake_log_due, App, Setting, Snapshot, SETTINGS_OVERRIDE_LOCK_NS,
    STATUS_TTL_NS, WAKE_FEED_CAP,
};
use napwatch::controls::{
    error_message, handle_key, kill_sent_message, renice_message, toggle_message, Command, Key,
};
use napwatch::display::{
    battery_color, battery_label, feed_time, footer, process_display_name, FooterStyle, GaugeColor,
};
use napwatch::power::{
    BatteryInfo, PowerSettings, ProcessDetail, ProcessPower, WakeEvent, WakeEventKind, WakeStats,
};

fn proc(pid: u32, cmd: &str) -> ProcessPower {
    ProcessPower { pid, command: cmd.to_string(), power_bits: 0 }
}

fn ev(ts: &str) -> WakeEvent {
    WakeEvent { timestamp: ts.to_string(), kind: WakeEventKind::Wake, reason: "r".to_string() }
}

fn empty_snap() -> Snapshot {
    Snapshot {
        battery: None,
        instant_power: None,
        wake: None,
        settings: None,
        processes: Vec::new(),
        new_wake_events: None,
    }
}

fn settings() -> PowerSettings {
    PowerSettings {
        powernap: true,
        womp: false,
        lowpowermode: false,
        tcpkeepalive: true,
        standby: true,
        disksleep: 10,
        displaysleep: 2,
    }
}

fn app_with(pids: &[u32]) -> App {
    let mut a = App::new(true);
    let mut s = empty_snap();
    s.processes = pids.iter().map(|p| proc(*p, &format!("cmd{}", p))).collect();
    a.apply(s, 0);
    a
}

#[test]
fn new_app_is_empty() {
    let a = App::new(false);
    assert!(a.battery.is_none() && a.settings.is_none() && a.processes.is_empty());
    assert!(!a.sudo_ok && !a.show_help && !a.show_detail);
    assert_eq!(a.selected_index(), 0);
}

#[test]
fn apply_keeps_old_readings_when_missing() {
    let mut a = App::new(true);
    let mut s = empty_snap();
    s.battery = Some(BatteryInfo { percentage: 50, charging: false, on_ac: false, time_remaining: None });
    s.wake = Some(WakeStats { sleep_count: 1, dark_wake_count: 2, user_wake_count: 3 });
    a.apply(s, 0);
    a.apply(empty_snap(), 1);
    assert_eq!(a.battery.as_ref().unwrap().percentage, 50);
    assert_eq!(a.wake.unwrap().dark_wake_count, 2);
}

#[test]
fn apply_selects_first_process_once() {
    let mut a = app_with(&[10, 20, 30]);
    assert_eq!(a.selected_pid, Some(10));
    let mut s = empty_snap();
    s.processes = vec![proc(30, "c"), proc(10, "a")];
    a.apply(s, 0);
    assert_eq!(a.selected_pid, Some(10));
    assert_eq!(a.selected_index(), 1);
    // An empty list keeps the old one.
    a.apply(empty_snap(), 0);
    assert_eq!(a.processes.len(), 2);
}

#[test]
fn selection_moves_and_stops_at_ends() {
    let mut a = app_with(&[10, 20, 30]);
    a.select_prev();
    assert_eq!(a.selected_pid, Some(10));
    a.select_next();
    a.select_next();
    assert_eq!(a.selected_pid, Some(30));
    a.select_next();
    assert_eq!(a.selected_pid, Some(30));
    a.select_prev();
    assert_eq!(a.selected_pid, Some(20));
}

#[test]
fn next_then_prev_returns() {
    let mut a = app_with(&[10, 20, 30]);
    a.select_next();
    let before = a.selected_pid;
    a.select_next();
    a.select_prev();
    assert_eq!(a.selected_pid, before);
}

#[test]
fn selection_of_vanished_pid_is_first_row() {
    let mut a = app_with(&[10, 20]);
    a.selected_pid = Some(99);
    assert_eq!(a.selected_index(), 0);
    a.select_next();
    assert_eq!(a.selected_pid, Some(20));
}

#[test]
fn selection_on_empty_list_is_unchanged() {
    let mut a = App::new(true);
    a.select_next();
    a.select_prev();
    assert_eq!(a.selected_pid, None);
}

#[test]
fn first_log_read_seeds_last_five() {
    let mut a = App::new(true);
    let mut s = empty_snap();
    s.new_wake_events = Some((0..8).map(|i| ev(&format!("2024-01-01 00:00:0{}", i))).collect());
    a.apply(s, 0);
    assert_eq!(a.wake_feed.len(), 5);
    assert_eq!(a.wake_feed[0].timestamp, "2024-01-01 00:00:03");
    assert_eq!(a.last_wake_timestamp.as_deref(), Some("2024-01-01 00:00:07"));
}

#[test]
fn later_log_reads_add_only_newer() {
    let mut a = App::new(true);
    let mut s = empty_snap();
    s.new_wake_events = Some(vec![ev("2024-01-01 00:00:01"), ev("2024-01-01 00:00:02")]);
    a.apply(s, 0);
    let mut s = empty_snap();
    s.new_wake_events = Some(vec![
        ev("2024-01-01 00:00:01"),
        ev("2024-01-01 00:00:02"),
        ev("2024-01-01 00:00:03"),
    ]);
    a.apply(s, 0);
    let got: Vec<&str> = a.wake_feed.iter().map(|e| e.timestamp.as_str()).collect();
    assert_eq!(got, vec!["2024-01-01 00:00:01", "2024-01-01 00:00:02", "2024-01-01 00:00:03"]);
    // An empty read changes nothing.
    let mut s = empty_snap();
    s.new_wake_events = Some(Vec::new());
    a.apply(s, 0);
    assert_eq!(a.wake_feed.len(), 3);
    assert_eq!(a.last_wake_timestamp.as_deref(), Some("2024-01-01 00:00:03"));
}

#[test]
fn feed_is_capped() {
    let mut a = App::new(true);
    let mut s = empty_snap();
    s.new_wake_events = Some(vec![ev("a")]);
    a.apply(s, 0);
    for round in 0..10 {
        let mut s = empty_snap();
        s.new_wake_events = Some((0..10).map(|i| ev(&format!("b{:02}{:02}", round, i))).collect());
        a.apply(s, 0);
        assert!(a.wake_feed.len() <= WAKE_FEED_CAP);
    }
    assert_eq!(a.wake_feed.len(), WAKE_FEED_CAP);
    assert_eq!(a.wake_feed.back().unwrap().timestamp, "b0909");
}

#[test]
fn toggle_locks_out_stale_settings() {
    let mut a = App::new(true);
    let mut s = empty_snap();
    s.settings = Some(settings());
    a.apply(s, 0);
    let t = 10_000_000_000u64;
    a.apply_toggle("powernap", false, t);
    assert!(!a.settings.unwrap().powernap);
    let mut s = empty_snap();
    s.settings = Some(settings());
    a.apply(s, t + SETTINGS_OVERRIDE_LOCK_NS - 1);
    assert!(!a.settings.unwrap().powernap);
    let mut s = empty_snap();
    s.settings = Some(settings());
    a.apply(s, t + SETTINGS_OVERRIDE_LOCK_NS);
    assert!(a.settings.unwrap().powernap);
}

#[test]
fn toggle_with_unknown_key_changes_nothing() {
    let mut a = App::new(true);
    let mut s = empty_snap();
    s.settings = Some(settings());
    a.apply(s, 0);
    a.apply_toggle("disksleep", true, 5);
    assert_eq!(a.settings_override_until, None);
    assert_eq!(a.settings, Some(settings()));
}

#[test]
fn toggle_before_settings_still_locks() {
    let mut a = App::new(true);
    a.apply_toggle("womp", true, 7);
    assert_eq!(a.settings, None);
    assert_eq!(a.settings_override_until, Some(7 + SETTINGS_OVERRIDE_LOCK_NS));
}

#[test]
fn status_clears_after_ttl() {
    let mut a = App::new(true);
    a.set_status("hello".to_string(), 100);
    a.tick_status(100 + STATUS_TTL_NS);
    assert_eq!(a.status.as_deref(), Some("hello"));
    a.tick_status(100 + STATUS_TTL_NS + 1);
    assert_eq!(a.status, None);
    assert_eq!(a.status_set_at, None);
    a.set_status("again".to_string(), 500);
    a.tick_status(0);
    assert_eq!(a.status.as_deref(), Some("again"));
}

#[test]
fn kill_request_names_process() {
    let mut a = app_with(&[10, 20]);
    a.request_kill(0);
    assert_eq!(a.pending_kill, Some((10, "cmd10".to_string())));
    let mut a = app_with(&[10]);
    a.selected_pid = Some(77);
    a.request_kill(0);
    assert_eq!(a.pending_kill, Some((77, "77".to_string())));
    let mut a = App::new(true);
    a.request_kill(3);
    assert_eq!(a.pending_kill, None);
    assert_eq!(a.status.as_deref(), Some("no process selected"));
    assert_eq!(a.status_set_at, Some(3));
}

#[test]
fn settings_by_key() {
    assert_eq!(setting_from_key("tcpkeepalive"), Some(Setting::TcpKeepAlive));
    assert_eq!(setting_from_key("standby"), Some(Setting::Standby));
    assert_eq!(setting_from_key("nope"), None);
    assert_eq!(Setting::LowPowerMode.key(), "lowpowermode");
    assert!(Setting::PowerNap.value_in(&settings()));
}

#[test]
fn wake_log_every_eighth_tick() {
    assert!(wake_log_due(0));
    assert!(!wake_log_due(1));
    assert!(wake_log_due(16));
    assert!(!wake_log_due(u32::MAX));
}

#[test]
fn pending_kill_takes_keys_first() {
    let mut a = app_with(&[10]);
    a.request_kill(0);
    a.show_help = true;
    assert_eq!(handle_key(&mut a, Key::Char('Y'), 0), Command::ConfirmKill);
    assert!(a.pending_kill.is_some());
    assert_eq!(handle_key(&mut a, Key::Char('q'), 0), Command::Nothing);
    assert!(a.pending_kill.is_none());
    assert!(a.show_help);
}

#[test]
fn help_swallows_keys() {
    let mut a = app_with(&[10, 20]);
    a.show_help = true;
    assert_eq!(handle_key(&mut a, Key::Down, 0), Command::Nothing);
    assert_eq!(a.selected_pid, Some(10));
    assert_eq!(handle_key(&mut a, Key::Char('?'), 0), Command::Nothing);
    assert!(!a.show_help);
}

#[test]
fn detail_closes_and_lets_moves_through() {
    let mut a = app_with(&[10, 20]);
    a.show_detail = true;
    assert_eq!(handle_key(&mut a, Key::Char('j'), 0), Command::Nothing);
    assert_eq!(a.selected_pid, Some(20));
    assert!(a.show_detail);
    assert_eq!(handle_key(&mut a, Key::Enter, 0), Command::Nothing);
    assert!(!a.show_detail);
}

#[test]
fn plain_keys() {
    let mut a = app_with(&[10, 20]);
    assert_eq!(handle_key(&mut a, Key::Esc, 0), Command::Quit);
    assert_eq!(handle_key(&mut a, Key::Char('i'), 0), Command::ShowDetail);
    assert_eq!(handle_key(&mut a, Key::Char('='), 0), Command::Renice(1));
    assert_eq!(handle_key(&mut a, Key::Char('-'), 0), Command::Renice(-1));
    assert_eq!(handle_key(&mut a, Key::Char('l'), 0), Command::Toggle(Setting::LowPowerMode));
    assert_eq!(handle_key(&mut a, Key::Char('x'), 0), Command::Nothing);
    assert_eq!(handle_key(&mut a, Key::Other, 0), Command::Nothing);
    assert_eq!(handle_key(&mut a, Key::Char('?'), 0), Command::Nothing);
    assert!(a.show_help);
    a.show_help = false;
    assert_eq!(handle_key(&mut a, Key::Char('K'), 0), Command::Nothing);
    assert_eq!(a.pending_kill, Some((10, "cmd10".to_string())));
}

#[test]
fn toggle_steps() {
    let mut a = App::new(false);
    assert!(a.prepare_toggle(Setting::Womp, 1).is_none());
    assert_eq!(a.status.as_deref(), Some("sudo unavailable \u{2014} restart napwatch to enable toggles"));
    let mut a = App::new(true);
    assert!(a.prepare_toggle(Setting::Womp, 1).is_none());
    assert_eq!(a.status.as_deref(), Some("settings not loaded yet"));
    let mut s = empty_snap();
    s.settings = Some(settings());
    a.apply(s, 0);
    let (current, plan) = a.prepare_toggle(Setting::Standby, 2).unwrap();
    assert!(current);
    assert_eq!(plan.args.last().map(|s| s.as_str()), Some("0"));
    a.finish_toggle(Setting::Standby, current, 2);
    assert!(!a.settings.unwrap().standby);
    assert_eq!(a.status.as_deref(), Some("standby -> off"));
}

#[test]
fn confirm_kill_takes_pending() {
    let mut a = app_with(&[10]);
    assert!(a.confirm_kill().is_none());
    a.request_kill(0);
    let (pid, name, plan) = a.confirm_kill().unwrap();
    assert_eq!((pid, name.as_str()), (10, "cmd10"));
    assert_eq!(plan.program, "sudo");
    assert!(a.pending_kill.is_none());
}

#[test]
fn selection_for_commands() {
    let mut a = App::new(true);
    assert_eq!(a.selection_for_command(4), None);
    assert_eq!(a.status.as_deref(), Some("no process selected"));
    let mut a = app_with(&[3]);
    assert_eq!(a.selection_for_command(4), Some(3));
    a.open_detail(ProcessDetail::default());
    assert!(a.show_detail && a.detail.is_some());
}

#[test]
fn messages() {
    assert_eq!(error_message("boom"), "error: boom");
    assert_eq!(toggle_message(Setting::PowerNap, false), "powernap -> on");
    assert_eq!(kill_sent_message("Safari", 42), "sent SIGTERM to Safari (42)");
    assert_eq!(renice_message(42, -3), "renice pid 42 -> -3");
}

#[test]
fn gauge_colors_and_label() {
    let b = BatteryInfo { percentage: 20, charging: false, on_ac: false, time_remaining: Some("1:00".into()) };
    assert_eq!(battery_color(&b), GaugeColor::Red);
    assert_eq!(battery_label(&b, ""), "20% (Battery, discharging, 1:00 remaining)");
    let b = BatteryInfo { percentage: 20, charging: true, on_ac: true, time_remaining: None };
    assert_eq!(battery_color(&b), GaugeColor::Yellow);
    assert_eq!(battery_label(&b, ", +5.0W"), "20% (AC, charging, +5.0W)");
    let b = BatteryInfo { percentage: 51, charging: false, on_ac: false, time_remaining: None };
    assert_eq!(battery_color(&b), GaugeColor::Green);
}

#[test]
fn feed_times_and_names() {
    assert_eq!(feed_time("2024-05-01 10:00:00"), "10:00:00");
    assert_eq!(feed_time("plain"), "plain");
    let mut d = ProcessDetail::default();
    d.full_command = "/usr/libexec/foo --x".to_string();
    assert_eq!(process_display_name(&d), "foo --x");
    d.bundle_name = Some("Foo".to_string());
    assert_eq!(process_display_name(&d), "Foo");
}

#[test]
fn footers() {
    let mut a = App::new(false);
    let (t, st) = footer(&a);
    assert_eq!(st, FooterStyle::Quiet);
    assert!(t.ends_with("(read-only: sudo unavailable, toggles disabled)"));
    a.set_status("hi".to_string(), 0);
    assert_eq!(footer(&a).0, "hi");
    a.pending_kill = Some((9, "x".to_string()));
    assert_eq!(footer(&a), ("Kill x (pid 9)? [y] confirm   [any other key] cancel".to_string(), FooterStyle::Alert));
}
