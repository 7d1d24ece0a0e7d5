use vstd::prelude::*;

use crate::number::{decimal, decimal_chars, signed_decimal, signed_decimal_chars};
use crate::text::string_from_chars;

verus! {

broadcast use vstd::string::group_string_axioms;

/// A program to run, with its arguments; its output is not read.
#[derive(Debug, Clone, PartialEq, Eq)]
pub struct CommandPlan {
    pub program: String,
    pub args: Vec<String>,
}

impl CommandPlan {
    pub open spec fn model(self) -> (Seq<char>, Seq<Seq<char>>) {
        (self.program@, self.args.deep_view())
    }
}

/// `program args..`, or `sudo -n program args..` where the cached sudo ticket
/// is to be used.
pub open spec fn maybe_sudo(program: Seq<char>, args: Seq<Seq<char>>, use_sudo: bool) -> (
    Seq<char>,
    Seq<Seq<char>>,
) {
    if use_sudo {
        ("sudo"@, seq!["-n"@, program] + args)
    } else {
        (program, args)
    }
}

pub fn run_maybe_sudo(program: &str, args: Vec<String>, use_sudo: bool) -> (plan: CommandPlan)
    ensures
        plan.model() == maybe_sudo(program@, args.deep_view(), use_sudo),
{
    if use_sudo {
        let mut full: Vec<String> = Vec::new();
        full.push(String::from_str("-n"));
        full.push(String::from_str(program));
        let ghost before = full@;
        let mut args = args;
        let ghost moved = args@;
        full.append(&mut args);
        assert(full@ =~= before + moved);
        assert(full.deep_view() =~= seq!["-n"@, program@] + moved.map_values(|s: String| s@));
        CommandPlan { program: String::from_str("sudo"), args: full }
    } else {
        CommandPlan { program: String::from_str(program), args }
    }
}


/// `sudo -n pmset -a KEY VALUE`.
pub open spec fn pmset_plan(key: Seq<char>, value: Seq<char>) -> (Seq<char>, Seq<Seq<char>>) {
    ("sudo"@, seq!["-n"@, "pmset"@, "-a"@, key, value])
}

pub fn set_pmset(key: &str, value: &str) -> (plan: CommandPlan)
    ensures
        plan.model() == pmset_plan(key@, value@),
{
    let mut args: Vec<String> = Vec::new();
    args.push(String::from_str("-n"));
    args.push(String::from_str("pmset"));
    args.push(String::from_str("-a"));
    args.push(String::from_str(key));
    args.push(String::from_str(value));
    let plan = CommandPlan { program: String::from_str("sudo"), args };
    assert(plan.model().1 =~= pmset_plan(key@, value@).1);
    plan
}

/// The command that flips a `pmset` switch: it sets `0` where the switch is on
/// and `1` where it is off.
pub fn toggle_bool_setting(key: &str, current: bool) -> (plan: CommandPlan)
    ensures
        plan.model() == pmset_plan(key@, if current { "0"@ } else { "1"@ }),
{
    set_pmset(
        key,
        if current {
            "0"
        } else {
            "1"
        },
    )
}

/// The command that sends SIGTERM to `pid`: `kill -TERM PID`, through `sudo -n`
/// where the cached sudo ticket is to be used.
pub fn kill_process(pid: u32, use_sudo: bool) -> (plan: CommandPlan)
    ensures
        plan.model() == maybe_sudo("kill"@, seq!["-TERM"@, decimal(pid as nat)], use_sudo),
{
    let mut args: Vec<String> = Vec::new();
    args.push(String::from_str("-TERM"));
    let p = decimal_chars(pid as u64);
    args.push(string_from_chars(p.as_slice()));
    assert(args.deep_view() =~= seq!["-TERM"@, decimal(pid as nat)]);
    run_maybe_sudo("kill", args, use_sudo)
}

/// The nice value that a change by `delta` leads to, kept in `-20..=19`.
pub open spec fn reniced(current: int, delta: int) -> int {
    let v = current + delta;
    if v < -20 {
        -20
    } else if v > 19 {
        19
    } else {
        v
    }
}

/// The new nice value of `pid`, whose nice value is now `current`, after a
/// change by `delta`, and the command that sets it:
/// `renice NEW -p PID`, through `sudo -n` where the cached ticket is to be used.
pub fn renice_process(pid: u32, delta: i32, use_sudo: bool, current: i32) -> (r: (i32, CommandPlan))
    requires
        i32::MIN <= current + delta <= i32::MAX,
    ensures
        r.0 == reniced(current as int, delta as int),
        -20 <= r.0 <= 19,
        r.1.model() == maybe_sudo(
            "renice"@,
            seq![signed_decimal(r.0 as int), "-p"@, decimal(pid as nat)],
            use_sudo,
        ),
{
    let sum = current + delta;
    let new_value = if sum < -20 {
        -20
    } else if sum > 19 {
        19
    } else {
        sum
    };
    let mut args: Vec<String> = Vec::new();
    let v = signed_decimal_chars(new_value as i64);
    args.push(string_from_chars(v.as_slice()));
    args.push(String::from_str("-p"));
    let p = decimal_chars(pid as u64);
    args.push(string_from_chars(p.as_slice()));
    assert(args.deep_view() =~= seq![signed_decimal(new_value as int), "-p"@, decimal(pid as nat)]);
    (new_value, run_maybe_sudo("renice", args, use_sudo))
}

} // verus!
