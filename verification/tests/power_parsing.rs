use napwatch::power::{
    bundle_path, extract_ioreg_signed, extract_wake_reason, find_launchd_label, info_plist_path,
    ioreg_readings, parent_command_from, parse_battery_info, parse_nice, parse_power_settings,
    parse_ps_fields, parse_top_rows, parse_wake_events, parse_wake_stats, plist_value,
    top_fetch_count, IoregKey, PowerError, PsField, WakeEventKind,
};

const BATT_DISCHARGING: &str = "Now drawing from 'Battery Power'\n -InternalBattery-0 (id=1234567)\t85%; discharging; 5:12 remaining present: true\n";

#[test]
fn battery_discharging() {
    let b = parse_battery_info(BATT_DISCHARGING).unwrap();
    assert_eq!(b.percentage, 85);
    assert!(!b.charging);
    assert!(!b.on_ac);
    assert_eq!(b.time_remaining.as_deref(), Some("5:12"));
}

#[test]
fn battery_charged_on_ac() {
    let text = "Now drawing from 'AC Power'\r\n -InternalBattery-0 (id=1)\t100%; charged; 0:00 remaining present: true\r\n";
    let b = parse_battery_info(text).unwrap();
    assert_eq!(b.percentage, 100);
    assert!(b.charging);
    assert!(b.on_ac);
    assert_eq!(b.time_remaining.as_deref(), Some("0:00"));
}

#[test]
fn battery_finishing_charge_without_estimate() {
    let text = "Now drawing from 'AC Power'\n -InternalBattery-0 (id=1)\t97%; finishing charge; (no estimate) present: true\n";
    let b = parse_battery_info(text).unwrap();
    assert_eq!(b.percentage, 97);
    assert!(b.charging);
    assert_eq!(b.time_remaining, None);
}

#[test]
fn battery_without_time_part() {
    let b = parse_battery_info("x\n 42%; AC attached\n").unwrap();
    assert_eq!(b.percentage, 42);
    assert!(!b.charging);
    assert_eq!(b.time_remaining, None);
}

#[test]
fn battery_percentage_out_of_range_is_skipped() {
    let b = parse_battery_info("x\n 300% +7%; charging\n").unwrap();
    assert_eq!(b.percentage, 7);
}

#[test]
fn battery_missing_line() {
    assert_eq!(parse_battery_info("Now drawing from 'AC Power'\n"), Err(PowerError::MissingBatteryLine));
    assert_eq!(parse_battery_info(""), Err(PowerError::MissingBatteryLine));
}

#[test]
fn battery_missing_percentage() {
    assert_eq!(parse_battery_info("a\nno percent; charging\n"), Err(PowerError::MissingPercentage));
    assert_eq!(parse_battery_info("a\nx; 80%\n"), Err(PowerError::MissingPercentage));
}

#[test]
fn wake_stats_counters() {
    let text = "Sleep Count:12\nDark Wake Count:34\nUser Wake Count: 5 \n";
    let w = parse_wake_stats(text);
    assert_eq!(w.sleep_count, 12);
    assert_eq!(w.dark_wake_count, 34);
    assert_eq!(w.user_wake_count, 5);
}

#[test]
fn wake_stats_missing_or_bad() {
    let w = parse_wake_stats("Sleep Count: lots\nSleep Count:9\nUser Wake Count\n");
    assert_eq!(w.sleep_count, 0);
    assert_eq!(w.dark_wake_count, 0);
    assert_eq!(w.user_wake_count, 0);
}

const SETTINGS: &str = "System-wide power settings:\nCurrently in use:\n standby              1\n Sleep On Power Button 1\n womp                 0\n powernap             1\n disksleep            10\n displaysleep         2 (display sleep prevents sleep)\n lowpowermode         0\n tcpkeepalive         1\n";

#[test]
fn power_settings_read() {
    let s = parse_power_settings(SETTINGS);
    assert!(s.standby);
    assert!(!s.womp);
    assert!(s.powernap);
    assert!(!s.lowpowermode);
    assert!(s.tcpkeepalive);
    assert_eq!(s.disksleep, 10);
    assert_eq!(s.displaysleep, 2);
}

#[test]
fn power_settings_last_line_wins() {
    let s = parse_power_settings(" womp 1\n womp 0\n disksleep 5\n disksleep x\n");
    assert!(!s.womp);
    assert_eq!(s.disksleep, 0);
    let s = parse_power_settings(" womp 0\n womp 1\n");
    assert!(s.womp);
}

#[test]
fn power_settings_missing_keys() {
    let s = parse_power_settings("powernap\n");
    assert!(!s.powernap);
    assert_eq!(s.displaysleep, 0);
}

const TOP: &str = "Processes: 500 total\nPID    COMMAND          POWER\n1      launchd          0.0\n\nProcesses: 501 total\nPID    COMMAND          POWER\n123    Google Chrome    12.5\n45     kernel_task      3.1\nbad    x 1.0\n\n77\n";

#[test]
fn top_rows_from_last_sample() {
    let rows = parse_top_rows(TOP);
    assert_eq!(rows.len(), 2);
    assert_eq!(rows[0].pid, 123);
    assert_eq!(rows[0].command, "Google Chrome");
    assert_eq!(rows[0].power, "12.5");
    assert_eq!(rows[1].pid, 45);
    assert_eq!(rows[1].command, "kernel_task");
    assert_eq!(rows[1].power, "3.1");
}

#[test]
fn top_rows_without_header() {
    assert!(parse_top_rows("123 a 1.0\n").is_empty());
}

#[test]
fn top_row_with_only_power() {
    let rows = parse_top_rows("PID COMMAND POWER\n9 0.5\n");
    assert_eq!(rows.len(), 1);
    assert_eq!(rows[0].command, "");
    assert_eq!(rows[0].power, "0.5");
}

#[test]
fn top_fetch_counts() {
    assert_eq!(top_fetch_count(12), 24);
    assert_eq!(top_fetch_count(5), 20);
    assert_eq!(top_fetch_count(0), 20);
}

#[test]
fn ps_fields_read() {
    let f = parse_ps_fields("    1 root   0.5  1.2  01:02:03 /Applications/Safari.app/Contents/MacOS/Safari --flag\n", 77).unwrap();
    assert_eq!(f.ppid, 1);
    assert_eq!(f.user, "root");
    assert_eq!(f.cpu, "0.5");
    assert_eq!(f.mem, "1.2");
    assert_eq!(f.elapsed, "01:02:03");
    assert_eq!(f.full_command, "/Applications/Safari.app/Contents/MacOS/Safari --flag");
}

#[test]
fn ps_fields_bad_ppid_reads_zero() {
    let f = parse_ps_fields("x me 1 2 3:00", 5).unwrap();
    assert_eq!(f.ppid, 0);
    assert_eq!(f.full_command, "");
}

#[test]
fn ps_fields_errors() {
    assert_eq!(parse_ps_fields("  \n", 77), Err(PowerError::ProcessGone { pid: 77 }));
    assert_eq!(parse_ps_fields("1", 7), Err(PowerError::MissingPsField { field: PsField::User }));
    assert_eq!(parse_ps_fields("1 root", 7), Err(PowerError::MissingPsField { field: PsField::Cpu }));
    assert_eq!(parse_ps_fields("1 root 0.5", 7), Err(PowerError::MissingPsField { field: PsField::Mem }));
    assert_eq!(parse_ps_fields("1 root 0.5 1", 7), Err(PowerError::MissingPsField { field: PsField::Etime }));
}

#[test]
fn bundle_paths() {
    assert_eq!(
        bundle_path("/Applications/Safari.app/Contents/MacOS/Safari").as_deref(),
        Some("/Applications/Safari.app")
    );
    assert_eq!(bundle_path("/usr/sbin/cfprefsd agent"), None);
    assert_eq!(bundle_path("/x/A.app"), None);
    assert_eq!(info_plist_path("/Applications/Safari.app"), "/Applications/Safari.app/Contents/Info.plist");
}

#[test]
fn plist_and_parent_values() {
    assert_eq!(plist_value(true, " Safari\n").as_deref(), Some("Safari"));
    assert_eq!(plist_value(false, "Safari"), None);
    assert_eq!(plist_value(true, "  \n"), None);
    assert_eq!(parent_command_from("/sbin/launchd\n").as_deref(), Some("/sbin/launchd"));
    assert_eq!(parent_command_from(""), None);
}

#[test]
fn launchd_labels() {
    let text = "PID\tStatus\tLabel\n123\t0\tcom.apple.foo\n-\t0\tcom.bar\n55\t0\n55\t0\tcom.later\n";
    assert_eq!(find_launchd_label(text, 123).as_deref(), Some("com.apple.foo"));
    assert_eq!(find_launchd_label(text, 999), None);
    assert_eq!(find_launchd_label(text, 55).as_deref(), Some("com.later"));
    assert_eq!(find_launchd_label(text, 12), None);
}

#[test]
fn nice_values() {
    assert_eq!(parse_nice(" 5\n", 1), Ok(5));
    assert_eq!(parse_nice("-3", 1), Ok(-3));
    assert_eq!(parse_nice("+0", 1), Ok(0));
    assert_eq!(parse_nice("", 9), Err(PowerError::ProcessGone { pid: 9 }));
    assert_eq!(parse_nice("abc", 9), Err(PowerError::BadNice));
    assert_eq!(parse_nice("-2147483648", 9), Ok(i32::MIN));
    assert_eq!(parse_nice("2147483648", 9), Err(PowerError::BadNice));
    assert_eq!(parse_nice("-", 9), Err(PowerError::BadNice));
}

const IOREG: &str = "+-o AppleSmartBattery  <class AppleSmartBattery>\n    {\n      \"InstantAmperage\" = 18446744073709550616\n      \"Voltage\" = 12500\n      \"AppleRawMaxCapacity\" = 5000\n      \"Amperage\" = 0\n    }\n";

#[test]
fn ioreg_signed_values() {
    assert_eq!(extract_ioreg_signed(IOREG, "InstantAmperage"), Some(-1000));
    assert_eq!(extract_ioreg_signed(IOREG, "Voltage"), Some(12500));
    assert_eq!(extract_ioreg_signed(IOREG, "Amperage"), Some(0));
    assert_eq!(extract_ioreg_signed(IOREG, "Missing"), None);
    assert_eq!(extract_ioreg_signed("\"A\" = 18446744073709551615\n", "A"), Some(-1));
    assert_eq!(extract_ioreg_signed("\"A\" = 9223372036854775808\n", "A"), Some(i64::MIN));
    assert_eq!(extract_ioreg_signed("\"A\" = -5\n", "A"), None);
    assert_eq!(extract_ioreg_signed("\"A\" = x\n\"A\" = 5\n", "A"), None);
}

#[test]
fn ioreg_readings_fall_back_to_amperage() {
    let r = ioreg_readings(IOREG).unwrap();
    assert_eq!(r.amperage_ma, -1000);
    assert_eq!(r.voltage_mv, 12500);
    assert_eq!(r.max_capacity_mah, 5000);
    let r = ioreg_readings("\"Amperage\" = 250\n\"Voltage\" = 12000\n\"AppleRawMaxCapacity\" = 0\n").unwrap();
    assert_eq!(r.amperage_ma, 250);
    assert_eq!(r.max_capacity_mah, 0);
}

#[test]
fn ioreg_readings_errors() {
    assert_eq!(ioreg_readings(""), Err(PowerError::MissingIoreg { key: IoregKey::Amperage }));
    assert_eq!(ioreg_readings("\"Amperage\" = 1\n"), Err(PowerError::MissingIoreg { key: IoregKey::Voltage }));
    assert_eq!(
        ioreg_readings("\"Amperage\" = 1\n\"Voltage\" = 2\n"),
        Err(PowerError::MissingIoreg { key: IoregKey::MaxCapacity })
    );
}

const LOG: &str = "2024-05-01 10:00:00 +0200 Sleep               \tEntering Sleep state due to 'Software Sleep pid=123':TCPKeepAlive=active Using AC (Charge:100%) \n2024-05-01 10:05:00 +0200 DarkWake            \tDarkWake from Deep Idle [CDNPB] : due to EC.RTC (Alarm)/Maintenance Using AC (Charge:100%) 2 secs\n2024-05-01 10:10:00 +0200 Wake                \tWake from Deep Idle [CDNVA] : due to UserActivity Assertion Using AC\n2024-05-01 10:11:00 +0200 Assertions          \tPID 1 created\nno tab here\n2024-05-01 10:12:00 Wake\tshort header\n";

#[test]
fn wake_events_read() {
    let es = parse_wake_events(LOG);
    assert_eq!(es.len(), 3);
    assert_eq!(es[0].timestamp, "2024-05-01 10:00:00");
    assert_eq!(es[0].kind, WakeEventKind::Sleep);
    assert_eq!(es[0].reason, "Software Sleep pid=123");
    assert_eq!(es[1].kind, WakeEventKind::DarkWake);
    assert_eq!(es[1].reason, "EC.RTC (Alarm)/Maintenance");
    assert_eq!(es[2].kind, WakeEventKind::Wake);
    assert_eq!(es[2].timestamp, "2024-05-01 10:10:00");
    assert_eq!(es[2].reason, "UserActivity Assertion");
}

#[test]
fn wake_reasons() {
    assert_eq!(extract_wake_reason("  no reason here "), "no reason here");
    assert_eq!(extract_wake_reason("x due to  Using AC"), "x due to  Using AC");
    assert_eq!(extract_wake_reason("due to 'unterminated Using AC"), "'unterminated");
    assert_eq!(extract_wake_reason("due to '  spaced  ' rest"), "spaced");
    assert_eq!(extract_wake_reason("due to plain reason"), "plain reason");
}
