use napwatch::actions::{kill_process, renice_process, run_maybe_sudo, set_pmset, toggle_bool_setting};

fn args(v: &[&str]) -> Vec<String> {
    v.iter().map(|s| s.to_string()).collect()
}

#[test]
fn toggle_turns_on_switch_off() {
    let p = toggle_bool_setting("powernap", true);
    assert_eq!(p.program, "sudo");
    assert_eq!(p.args, args(&["-n", "pmset", "-a", "powernap", "0"]));
    let p = toggle_bool_setting("womp", false);
    assert_eq!(p.args, args(&["-n", "pmset", "-a", "womp", "1"]));
}

#[test]
fn pmset_plan() {
    let p = set_pmset("standby", "1");
    assert_eq!(p.program, "sudo");
    assert_eq!(p.args, args(&["-n", "pmset", "-a", "standby", "1"]));
}

#[test]
fn maybe_sudo_plans() {
    let p = run_maybe_sudo("kill", args(&["-TERM", "5"]), true);
    assert_eq!(p.program, "sudo");
    assert_eq!(p.args, args(&["-n", "kill", "-TERM", "5"]));
    let p = run_maybe_sudo("kill", args(&["-TERM", "5"]), false);
    assert_eq!(p.program, "kill");
    assert_eq!(p.args, args(&["-TERM", "5"]));
}

#[test]
fn kill_plans() {
    let p = kill_process(4321, false);
    assert_eq!(p.program, "kill");
    assert_eq!(p.args, args(&["-TERM", "4321"]));
    let p = kill_process(0, true);
    assert_eq!(p.args, args(&["-n", "kill", "-TERM", "0"]));
}

#[test]
fn renice_clamps() {
    let (v, p) = renice_process(12, 1, false, 5);
    assert_eq!(v, 6);
    assert_eq!(p.program, "renice");
    assert_eq!(p.args, args(&["6", "-p", "12"]));
    let (v, p) = renice_process(12, -1, true, -20);
    assert_eq!(v, -20);
    assert_eq!(p.args, args(&["-n", "renice", "-20", "-p", "12"]));
    let (v, _) = renice_process(12, 1, false, 19);
    assert_eq!(v, 19);
    let (v, _) = renice_process(1, 100, false, 0);
    assert_eq!(v, 19);
}
