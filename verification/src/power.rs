use vstd::prelude::*;

use crate::number::{
    law_signed_decimal_parses_back, signed_decimal,
    decimal, decimal_chars, law_decimal_parses_back, law_decimal_injective, law_decimal_is_digits,
    is_digit, all_digits, parse_i32, parse_signed, parse_u32, parse_u64, parse_u8, parse_unsigned,
};
use crate::text::{
    chars_of, contains, copy_range, find, find_in, lemma_split_on_len, lines_of, same_chars,
    split_char, split_lines, split_on, split_words, starts_with, has_prefix, string_from_chars, trim,
    trimmed, views, words, is_ws, is_whitespace, join, join_spaced, trim_start, trimmed_start, trim_end,
    first_at, occurs_at, lemma_first_at_unique, lemma_split_on_concat, lemma_split_on_no_sep,
};

verus! {

broadcast use vstd::string::group_string_axioms;

/// What went wrong reading one of the power reports.
#[derive(Debug, Clone, Copy, PartialEq, Eq, Structural)]
pub enum PowerError {
    /// `pmset -g batt` printed no second line.
    MissingBatteryLine,
    /// The battery line holds no `NN%` token.
    MissingPercentage,
    /// `ps` printed nothing for the process.
    ProcessGone { pid: u32 },
    /// `ps` printed fewer columns than asked for.
    MissingPsField { field: PsField },
    /// `ps -o nice=` printed something that is not an `i32`.
    BadNice,
    /// `ioreg` printed no line for a reading.
    MissingIoreg { key: IoregKey },
}

/// The columns of `ps -o ppid=,user=,%cpu=,%mem=,etime=,comm=`.
#[derive(Debug, Clone, Copy, PartialEq, Eq, Structural)]
pub enum PsField {
    Ppid,
    User,
    Cpu,
    Mem,
    Etime,
}

/// The readings taken from `ioreg -rn AppleSmartBattery`.
#[derive(Debug, Clone, Copy, PartialEq, Eq, Structural)]
pub enum IoregKey {
    Amperage,
    Voltage,
    MaxCapacity,
}

// ---------------------------------------------------------------------------
// Battery: `pmset -g batt`
// ---------------------------------------------------------------------------

#[derive(Debug, Clone, PartialEq, Eq)]
pub struct BatteryInfo {
    pub percentage: u8,
    pub charging: bool,
    pub on_ac: bool,
    pub time_remaining: Option<String>,
}

/// The percentage a token such as `87%` writes.
pub open spec fn token_percentage(tok: Seq<char>) -> Option<int> {
    if tok.len() > 0 && tok.last() == '%' {
        parse_unsigned(tok.drop_last(), 255)
    } else {
        None
    }
}

/// The percentage of the first token that writes one.
pub open spec fn first_percentage(toks: Seq<Seq<char>>) -> Option<int>
    decreases toks.len(),
{
    if toks.len() == 0 {
        None
    } else if token_percentage(toks[0]) is Some {
        token_percentage(toks[0])
    } else {
        first_percentage(toks.drop_first())
    }
}

/// The line of `pmset -g batt` that describes the battery.
pub open spec fn battery_line(text: Seq<char>) -> Option<Seq<char>> {
    if lines_of(text).len() >= 2 {
        Some(lines_of(text)[1])
    } else {
        None
    }
}

/// The battery line's percentage, from the part before its first `;`.
pub open spec fn line_percentage(line: Seq<char>) -> Option<int> {
    first_percentage(words(split_on(line, ';')[0]))
}

/// The percentage of a battery line is the number of the first word, before
/// its first `;`, that is written as a number of at most 255 followed by `%`,
/// where no word before it ends in `%`.
pub proof fn law_percentage_first_token(
    seg: Seq<char>,
    rest: Seq<char>,
    before: Seq<Seq<char>>,
    p: u8,
    after: Seq<Seq<char>>,
)
    requires
        !seg.contains(';'),
        rest.len() == 0 || rest[0] == ';',
        words(seg) == before + seq![decimal(p as nat).push('%')] + after,
        forall|i: int| 0 <= i < before.len() ==> !(#[trigger] before[i].len() > 0 && before[i].last()
            == '%'),
    ensures
        line_percentage(seg + rest) == Some(p as int),
    decreases before.len(),
{
    lemma_split_on_no_sep(seg, ';');
    if rest.len() == 0 {
        assert(seg + rest =~= seg);
    } else {
        assert(seg + rest =~= seg + seq![';'] + rest.drop_first());
        lemma_split_on_concat(seg, rest.drop_first(), ';');
    }
    assert(split_on(seg + rest, ';')[0] == seg);
    lemma_first_percentage(before, p, after);
}

proof fn lemma_first_percentage(before: Seq<Seq<char>>, p: u8, after: Seq<Seq<char>>)
    requires
        forall|i: int| 0 <= i < before.len() ==> !(#[trigger] before[i].len() > 0 && before[i].last()
            == '%'),
    ensures
        first_percentage(before + seq![decimal(p as nat).push('%')] + after) == Some(p as int),
    decreases before.len(),
{
    let toks = before + seq![decimal(p as nat).push('%')] + after;
    if before.len() == 0 {
        let t = decimal(p as nat).push('%');
        assert(toks[0] == t);
        assert(t.drop_last() =~= decimal(p as nat));
        law_decimal_parses_back(p as nat, 255);
    } else {
        assert(toks[0] == before[0]);
        assert(!(before[0].len() > 0 && before[0].last() == '%'));
        assert(toks.drop_first() =~= before.drop_first() + seq![decimal(p as nat).push('%')] + after);
        assert forall|i: int| 0 <= i < before.drop_first().len() implies !(
        #[trigger] before.drop_first()[i].len() > 0 && before.drop_first()[i].last() == '%') by {
            assert(before.drop_first()[i] == before[i + 1]);
        }
        lemma_first_percentage(before.drop_first(), p, after);
    }
}

/// The battery line's state, between its first and second `;`, trimmed.
pub open spec fn line_status(line: Seq<char>) -> Seq<char> {
    let segs = split_on(line, ';');
    if segs.len() >= 2 {
        trim(segs[1])
    } else {
        Seq::empty()
    }
}

pub open spec fn status_charging(status: Seq<char>) -> bool {
    status == "charging"@ || status == "charged"@ || status == "finishing charge"@
}

/// The battery counts as charging exactly when the part of the battery line
/// between its first and second `;` reads, trimmed, `charging`, `charged` or
/// `finishing charge`.
pub proof fn law_charging_status(pre: Seq<char>, st: Seq<char>, rest: Seq<char>)
    requires
        !pre.contains(';'),
        !st.contains(';'),
        rest.len() == 0 || rest[0] == ';',
    ensures
        status_charging(line_status(pre + seq![';'] + st + rest)) <==> (trim(st) == "charging"@
            || trim(st) == "charged"@ || trim(st) == "finishing charge"@),
{
    let line = pre + seq![';'] + st + rest;
    lemma_split_on_no_sep(pre, ';');
    lemma_split_on_no_sep(st, ';');
    if rest.len() == 0 {
        assert(line =~= pre + seq![';'] + st);
        lemma_split_on_concat(pre, st, ';');
    } else {
        let r = rest.drop_first();
        assert(line =~= pre + seq![';'] + (st + seq![';'] + r));
        lemma_split_on_concat(pre, st + seq![';'] + r, ';');
        lemma_split_on_concat(st, r, ';');
        lemma_split_on_len(r, ';');
    }
    assert(line_status(line) == trim(st));
}

/// A time estimate is never empty and never one that says there is no estimate.
pub proof fn law_time_is_an_estimate(line: Seq<char>)
    ensures
        line_time(line) matches Some(t) ==> t.len() > 0 && !contains(t, "no estimate"@),
{
}

/// The part of `s` before its first ` remaining`.
pub open spec fn before_remaining(s: Seq<char>) -> Seq<char> {
    match find(s, " remaining"@) {
        Some(i) => s.take(i),
        None => s,
    }
}

/// The time estimate in the third `;`-separated part of the battery line.
pub open spec fn line_time(line: Seq<char>) -> Option<Seq<char>> {
    let segs = split_on(line, ';');
    if segs.len() >= 3 {
        let t = trim(before_remaining(segs[2]));
        if t.len() == 0 || contains(t, "no estimate"@) {
            None
        } else {
            Some(t)
        }
    } else {
        None
    }
}

fn percentage_of_token(tok: &[char]) -> (r: Option<u8>)
    ensures
        match r {
            Some(v) => token_percentage(tok@) == Some(v as int),
            None => token_percentage(tok@) is None,
        },
{
    let n = tok.len();
    if n > 0 && tok[n - 1] == '%' {
        let body = copy_range(tok, 0, n - 1);
        assert(body@ =~= tok@.drop_last());
        parse_u8(body.as_slice())
    } else {
        None
    }
}

fn first_percentage_of(toks: &Vec<Vec<char>>) -> (r: Option<u8>)
    ensures
        match r {
            Some(v) => first_percentage(views(toks@)) == Some(v as int),
            None => first_percentage(views(toks@)) is None,
        },
{
    let n = toks.len();
    let mut i: usize = 0;
    assert(views(toks@).skip(0) =~= views(toks@));
    while i < n
        invariant
            i <= n == toks@.len(),
            first_percentage(views(toks@)) == first_percentage(views(toks@).skip(i as int)),
        decreases n - i,
    {
        let ghost rest = views(toks@).skip(i as int);
        assert(rest[0] == toks@[i as int]@);
        assert(rest.drop_first() =~= views(toks@).skip(i + 1));
        match percentage_of_token(toks[i].as_slice()) {
            Some(v) => {
                return Some(v);
            },
            None => {},
        }
        i += 1;
    }
    None
}

/// Reads the output of `pmset -g batt`.
pub fn parse_battery_info(text: &str) -> (r: Result<BatteryInfo, PowerError>)
    ensures
        battery_line(text@) is None ==> r == Err::<BatteryInfo, PowerError>(
            PowerError::MissingBatteryLine,
        ),
        battery_line(text@) matches Some(line) ==> {
            &&& line_percentage(line) is None ==> r == Err::<BatteryInfo, PowerError>(
                PowerError::MissingPercentage,
            )
            &&& line_percentage(line) matches Some(p) ==> r matches Ok(b) && {
                &&& b.percentage == p
                &&& b.charging == status_charging(line_status(line))
                &&& b.on_ac == contains(text@, "AC Power"@)
                &&& b.time_remaining.deep_view() == line_time(line)
            }
        },
{
    let cs = chars_of(text);
    let ac = chars_of("AC Power");
    let on_ac = find_in(cs.as_slice(), ac.as_slice()).is_some();
    let lines = split_lines(cs.as_slice());
    if lines.len() < 2 {
        return Err(PowerError::MissingBatteryLine);
    }
    let line = &lines[1];
    let segs = split_char(line.as_slice(), ';');
    proof {
        lemma_split_on_len(line@, ';');
    }
    let first_words = split_words(segs[0].as_slice());
    let percentage = match first_percentage_of(&first_words) {
        Some(p) => p,
        None => {
            return Err(PowerError::MissingPercentage);
        },
    };
    let status: Vec<char> = if segs.len() >= 2 {
        trimmed(segs[1].as_slice())
    } else {
        Vec::new()
    };
    let charging = same_chars(status.as_slice(), chars_of("charging").as_slice())
        || same_chars(status.as_slice(), chars_of("charged").as_slice())
        || same_chars(status.as_slice(), chars_of("finishing charge").as_slice());
    let time_remaining = if segs.len() >= 3 {
        let seg = &segs[2];
        let part = match find_in(seg.as_slice(), chars_of(" remaining").as_slice()) {
            Some(i) => copy_range(seg.as_slice(), 0, i),
            None => copy_range(seg.as_slice(), 0, seg.len()),
        };
        assert(part@ == before_remaining(seg@)) by {
            assert(seg@.subrange(0, seg@.len() as int) =~= seg@);
        }
        let t = trimmed(part.as_slice());
        if t.len() == 0 || find_in(t.as_slice(), chars_of("no estimate").as_slice()).is_some() {
            None
        } else {
            Some(string_from_chars(t.as_slice()))
        }
    } else {
        None
    };
    Ok(BatteryInfo { percentage, charging, on_ac, time_remaining })
}


// ---------------------------------------------------------------------------
// Sleep and wake counters: `pmset -g stats`
// ---------------------------------------------------------------------------

#[derive(Debug, Clone, Copy, Default, PartialEq, Eq, Structural)]
pub struct WakeStats {
    pub sleep_count: u32,
    pub dark_wake_count: u32,
    pub user_wake_count: u32,
}

/// The first line that starts with `label`.
pub open spec fn first_with_prefix(lines: Seq<Seq<char>>, label: Seq<char>) -> Option<Seq<char>>
    decreases lines.len(),
{
    if lines.len() == 0 {
        None
    } else if starts_with(lines[0], label) {
        Some(lines[0])
    } else {
        first_with_prefix(lines.drop_first(), label)
    }
}

/// The number after the first `:` of a line (up to a second `:`, trimmed), 0 where
/// there is none.
pub open spec fn counter_value(line: Seq<char>) -> int {
    let parts = split_on(line, ':');
    if parts.len() >= 2 {
        match parse_unsigned(trim(parts[1]), u32::MAX as int) {
            Some(v) => v,
            None => 0,
        }
    } else {
        0
    }
}

/// A counter line `LABEL:N` (with nothing after `N`, or a further `:`) reads
/// as `N`.
pub proof fn law_counter_line(label: Seq<char>, n: u32, rest: Seq<char>)
    requires
        !label.contains(':'),
        rest.len() == 0 || rest[0] == ':',
    ensures
        counter_value(label + seq![':'] + decimal(n as nat) + rest) == n,
{
    let d = decimal(n as nat);
    law_decimal_is_digits(n as nat);
    assert(!d.contains(':')) by {
        if d.contains(':') {
            let i = choose|i: int| 0 <= i < d.len() && d[i] == ':';
            assert(is_digit(d[i]));
        }
    }
    lemma_split_on_no_sep(label, ':');
    lemma_split_on_no_sep(d, ':');
    let line = label + seq![':'] + d + rest;
    if rest.len() == 0 {
        assert(line =~= label + seq![':'] + d);
        lemma_split_on_concat(label, d, ':');
    } else {
        assert(line =~= label + seq![':'] + (d + seq![':'] + rest.drop_first()));
        lemma_split_on_concat(label, d + seq![':'] + rest.drop_first(), ':');
        lemma_split_on_concat(d, rest.drop_first(), ':');
        lemma_split_on_len(rest.drop_first(), ':');
    }
    assert(split_on(line, ':')[1] == d);
    assert(is_digit(d[0]));
    assert(is_digit(d.last()));
    assert(trim_start(d) == d);
    assert(trim_end(d) == d);
    law_decimal_parses_back(n as nat, u32::MAX as int);
}

/// The counter of the first line that starts with `label`, 0 where there is none.
pub open spec fn counter(text: Seq<char>, label: Seq<char>) -> int {
    match first_with_prefix(lines_of(text), label) {
        Some(line) => counter_value(line),
        None => 0,
    }
}

fn counter_of(lines: &Vec<Vec<char>>, label: &str) -> (v: u32)
    ensures
        v == match first_with_prefix(views(lines@), label@) {
            Some(line) => counter_value(line),
            None => 0,
        },
{
    let lab = chars_of(label);
    let n = lines.len();
    let mut i: usize = 0;
    assert(views(lines@).skip(0) =~= views(lines@));
    while i < n
        invariant
            i <= n == lines@.len(),
            lab@ == label@,
            first_with_prefix(views(lines@), label@) == first_with_prefix(
                views(lines@).skip(i as int),
                label@,
            ),
        decreases n - i,
    {
        let ghost rest = views(lines@).skip(i as int);
        assert(rest[0] == lines@[i as int]@);
        assert(rest.drop_first() =~= views(lines@).skip(i + 1));
        let line = &lines[i];
        if has_prefix(line.as_slice(), lab.as_slice()) {
            let parts = split_char(line.as_slice(), ':');
            if parts.len() >= 2 {
                let t = trimmed(parts[1].as_slice());
                return match parse_u32(t.as_slice()) {
                    Some(v) => v,
                    None => 0,
                };
            } else {
                return 0;
            }
        }
        i += 1;
    }
    0
}

/// Reads the output of `pmset -g stats`.
pub fn parse_wake_stats(text: &str) -> (w: WakeStats)
    ensures
        w.sleep_count == counter(text@, "Sleep Count"@),
        w.dark_wake_count == counter(text@, "Dark Wake Count"@),
        w.user_wake_count == counter(text@, "User Wake Count"@),
{
    let cs = chars_of(text);
    let lines = split_lines(cs.as_slice());
    WakeStats {
        sleep_count: counter_of(&lines, "Sleep Count"),
        dark_wake_count: counter_of(&lines, "Dark Wake Count"),
        user_wake_count: counter_of(&lines, "User Wake Count"),
    }
}


// ---------------------------------------------------------------------------
// Settings: `pmset -g`
// ---------------------------------------------------------------------------

#[derive(Debug, Clone, Copy, Default, PartialEq, Eq, Structural)]
pub struct PowerSettings {
    pub powernap: bool,
    pub womp: bool,
    pub lowpowermode: bool,
    pub tcpkeepalive: bool,
    pub standby: bool,
    pub disksleep: u32,
    pub displaysleep: u32,
}

/// The index of the first whitespace character of `s`.
pub open spec fn first_ws(s: Seq<char>) -> Option<int>
    decreases s.len(),
{
    if s.len() == 0 {
        None
    } else if is_ws(s[0]) {
        Some(0)
    } else {
        match first_ws(s.drop_first()) {
            Some(i) => Some(i + 1),
            None => None,
        }
    }
}

/// The first word of `s`, empty where there is none.
pub open spec fn first_word(s: Seq<char>) -> Seq<char> {
    if words(s).len() > 0 {
        words(s)[0]
    } else {
        Seq::empty()
    }
}

/// The key and value of a settings line: the trimmed line up to its first
/// whitespace character, and the first word of what follows that character.
/// None where the trimmed line holds no whitespace.
pub open spec fn setting_entry(line: Seq<char>) -> Option<(Seq<char>, Seq<char>)> {
    let t = trim(line);
    match first_ws(t) {
        Some(i) => Some((t.take(i), first_word(trim(t.skip(i + 1))))),
        None => None,
    }
}

/// The value that the last line with key `key` gives it.
pub open spec fn setting(lines: Seq<Seq<char>>, key: Seq<char>) -> Option<Seq<char>>
    decreases lines.len(),
{
    if lines.len() == 0 {
        None
    } else {
        match setting_entry(lines.last()) {
            Some((k, v)) if k == key => Some(v),
            _ => setting(lines.drop_last(), key),
        }
    }
}

proof fn lemma_first_ws_after(key: Seq<char>, c: char, rest: Seq<char>)
    requires
        forall|i: int| 0 <= i < key.len() ==> !is_ws(#[trigger] key[i]),
        is_ws(c),
    ensures
        first_ws(key + seq![c] + rest) == Some(key.len() as int),
    decreases key.len(),
{
    let s = key + seq![c] + rest;
    if key.len() == 0 {
        assert(s[0] == c);
    } else {
        assert(s[0] == key[0]);
        assert(s.drop_first() =~= key.drop_first() + seq![c] + rest);
        assert forall|i: int| 0 <= i < key.drop_first().len() implies !is_ws(
            #[trigger] key.drop_first()[i],
        ) by {
            assert(key.drop_first()[i] == key[i + 1]);
        }
        lemma_first_ws_after(key.drop_first(), c, rest);
    }
}

/// A settings line whose trimmed form is `KEY`, a whitespace character, then
/// a rest, sets KEY to the first word of the rest.
pub proof fn law_setting_line(line: Seq<char>, key: Seq<char>, c: char, rest: Seq<char>)
    requires
        trim(line) == key + seq![c] + rest,
        forall|i: int| 0 <= i < key.len() ==> !is_ws(#[trigger] key[i]),
        is_ws(c),
        words(trim(rest)).len() > 0,
    ensures
        setting_entry(line) == Some((key, words(trim(rest))[0])),
{
    lemma_first_ws_after(key, c, rest);
    let t = trim(line);
    assert(t.take(key.len() as int) =~= key);
    assert(t.skip((key.len() + 1) as int) =~= rest);
}

/// The last line that sets a key decides its value: a line that sets `key`
/// gives its value, and a line that sets another key, or none, leaves the
/// value as the lines before gave it.
pub proof fn law_last_setting_wins(lines: Seq<Seq<char>>, l: Seq<char>, key: Seq<char>)
    ensures
        setting_entry(l) matches Some((k, v)) ==> (k == key ==> setting(lines.push(l), key) == Some(
            v,
        )),
        !(setting_entry(l) matches Some((k, _)) && k == key) ==> setting(lines.push(l), key)
            == setting(lines, key),
{
    assert(lines.push(l).drop_last() =~= lines);
    assert(lines.push(l).last() == l);
}

/// A switch is on where its value is exactly `1`.
pub open spec fn switch_setting(text: Seq<char>, key: Seq<char>) -> bool {
    setting(lines_of(text), key) == Some("1"@)
}

/// A number setting, 0 where it is missing or not a `u32`.
pub open spec fn number_setting(text: Seq<char>, key: Seq<char>) -> int {
    match setting(lines_of(text), key) {
        Some(v) => match parse_unsigned(v, u32::MAX as int) {
            Some(n) => n,
            None => 0,
        },
        None => 0,
    }
}

fn first_ws_index(s: &[char]) -> (r: Option<usize>)
    ensures
        match r {
            Some(i) => first_ws(s@) == Some(i as int) && i < s@.len(),
            None => first_ws(s@) is None,
        },
{
    let n = s.len();
    let mut i: usize = 0;
    assert(s@.skip(0) =~= s@);
    while i < n
        invariant
            i <= n == s@.len(),
            first_ws(s@) == match first_ws(s@.skip(i as int)) {
                Some(k) => Some(k + i),
                None => None,
            },
        decreases n - i,
    {
        assert(s@.skip(i as int).drop_first() =~= s@.skip(i + 1));
        assert(s@.skip(i as int)[0] == s@[i as int]);
        if is_whitespace(s[i]) {
            return Some(i);
        }
        i += 1;
    }
    assert(s@.skip(n as int) =~= Seq::<char>::empty());
    None
}

fn entry_of(line: &[char]) -> (r: Option<(Vec<char>, Vec<char>)>)
    ensures
        match r {
            Some((k, v)) => setting_entry(line@) == Some((k@, v@)),
            None => setting_entry(line@) is None,
        },
{
    let t = trimmed(line);
    match first_ws_index(t.as_slice()) {
        Some(i) => {
            assert(i < t.len());
            let key = copy_range(t.as_slice(), 0, i);
            let rest = copy_range(t.as_slice(), i + 1, t.len());
            assert(key@ =~= t@.take(i as int));
            assert(rest@ =~= t@.skip(i + 1));
            let rest_t = trimmed(rest.as_slice());
            let ws = split_words(rest_t.as_slice());
            let value = if ws.len() > 0 {
                copy_range(ws[0].as_slice(), 0, ws[0].len())
            } else {
                Vec::new()
            };
            assert(value@ =~= first_word(trim(t@.skip(i + 1)))) by {
                if ws@.len() > 0 {
                    assert(views(ws@)[0] == ws@[0]@);
                    assert(ws@[0]@.subrange(0, ws@[0]@.len() as int) =~= ws@[0]@);
                }
            }
            Some((key, value))
        },
        None => None,
    }
}

fn setting_of(lines: &Vec<Vec<char>>, key: &str) -> (r: Option<Vec<char>>)
    ensures
        match r {
            Some(v) => setting(views(lines@), key@) == Some(v@),
            None => setting(views(lines@), key@) is None,
        },
{
    let k = chars_of(key);
    let mut i = lines.len();
    assert(views(lines@).take(i as int) =~= views(lines@));
    while i > 0
        invariant
            i <= lines@.len(),
            k@ == key@,
            setting(views(lines@), key@) == setting(views(lines@).take(i as int), key@),
        decreases i,
    {
        let ghost pre = views(lines@).take(i as int);
        assert(pre.drop_last() =~= views(lines@).take(i - 1));
        assert(pre.last() == lines@[i - 1]@);
        match entry_of(lines[i - 1].as_slice()) {
            Some((ek, ev)) => {
                if same_chars(ek.as_slice(), k.as_slice()) {
                    return Some(ev);
                }
            },
            None => {},
        }
        i -= 1;
    }
    None
}

fn switch_of(lines: &Vec<Vec<char>>, key: &str) -> (b: bool)
    ensures
        b == (setting(views(lines@), key@) == Some("1"@)),
{
    match setting_of(lines, key) {
        Some(v) => same_chars(v.as_slice(), chars_of("1").as_slice()),
        None => false,
    }
}

fn number_of(lines: &Vec<Vec<char>>, key: &str) -> (n: u32)
    ensures
        n == match setting(views(lines@), key@) {
            Some(v) => match parse_unsigned(v, u32::MAX as int) {
                Some(n) => n,
                None => 0,
            },
            None => 0,
        },
{
    match setting_of(lines, key) {
        Some(v) => match parse_u32(v.as_slice()) {
            Some(n) => n,
            None => 0,
        },
        None => 0,
    }
}

/// Reads the output of `pmset -g`.
pub fn parse_power_settings(text: &str) -> (p: PowerSettings)
    ensures
        p.powernap == switch_setting(text@, "powernap"@),
        p.womp == switch_setting(text@, "womp"@),
        p.lowpowermode == switch_setting(text@, "lowpowermode"@),
        p.tcpkeepalive == switch_setting(text@, "tcpkeepalive"@),
        p.standby == switch_setting(text@, "standby"@),
        p.disksleep == number_setting(text@, "disksleep"@),
        p.displaysleep == number_setting(text@, "displaysleep"@),
{
    let cs = chars_of(text);
    let lines = split_lines(cs.as_slice());
    PowerSettings {
        powernap: switch_of(&lines, "powernap"),
        womp: switch_of(&lines, "womp"),
        lowpowermode: switch_of(&lines, "lowpowermode"),
        tcpkeepalive: switch_of(&lines, "tcpkeepalive"),
        standby: switch_of(&lines, "standby"),
        disksleep: number_of(&lines, "disksleep"),
        displaysleep: number_of(&lines, "displaysleep"),
    }
}


// ---------------------------------------------------------------------------
// Processes by power: `top -l 2 -stats pid,command,power`
// ---------------------------------------------------------------------------

/// A process with its power reading; `power_bits` holds the bits of the `f32`
/// reading (`f32::to_bits`).
#[derive(Debug, Clone, PartialEq, Eq)]
pub struct ProcessPower {
    pub pid: u32,
    pub command: String,
    pub power_bits: u32,
}

/// A row of the process table as `top` prints it: the power column is kept as
/// its text.
#[derive(Debug, Clone, PartialEq, Eq)]
pub struct TopRow {
    pub pid: u32,
    pub command: String,
    pub power: String,
}

impl TopRow {
    pub open spec fn model(self) -> (int, Seq<char>, Seq<char>) {
        (self.pid as int, self.command@, self.power@)
    }
}

/// How many rows to ask `top` for, to keep `n` of them: twice as many, at least 20.
pub fn top_fetch_count(n: usize) -> (r: usize)
    requires
        n * 2 <= usize::MAX,
    ensures
        r == if n * 2 >= 20 { n * 2 } else { 20 },
{
    if n * 2 >= 20 {
        n * 2
    } else {
        20
    }
}

/// The header line of a sample's table.
pub open spec fn is_top_header(t: Seq<char>) -> bool {
    starts_with(t, "PID"@) && contains(t, "COMMAND"@)
}

/// The row that a trimmed table line writes: a `u32` pid, then at least one
/// more word; the last word is the power column and the words between are the
/// command, joined by single spaces.
pub open spec fn top_row(t: Seq<char>) -> Option<(int, Seq<char>, Seq<char>)> {
    let ws = words(t);
    if ws.len() >= 2 {
        match parse_unsigned(ws[0], u32::MAX as int) {
            Some(pid) => Some((pid, join(ws.subrange(1, ws.len() - 1), seq![' ']), ws.last())),
            None => None,
        }
    } else {
        None
    }
}

/// A table line whose words are a pid written in decimal, then any command
/// words, then the power column, is the row of that pid (any `u32`), that
/// command (its words joined by single spaces) and that power text.
pub proof fn law_top_row_reads_pid(t: Seq<char>, p: u32, cw: Seq<Seq<char>>, pw: Seq<char>)
    requires
        words(t) == seq![decimal(p as nat)] + cw + seq![pw],
    ensures
        top_row(t) == Some((p as int, join(cw, seq![' ']), pw)),
{
    let ws = words(t);
    law_decimal_parses_back(p as nat, u32::MAX as int);
    assert(ws[0] == decimal(p as nat));
    assert(ws.subrange(1, ws.len() - 1) =~= cw);
    assert(ws.last() == pw);
}

/// The rows gathered from `lines`, and whether a header has been seen; every
/// header drops the rows gathered before it, so that only the last sample's
/// rows remain.
pub open spec fn top_scan(lines: Seq<Seq<char>>) -> (Seq<(int, Seq<char>, Seq<char>)>, bool)
    decreases lines.len(),
{
    if lines.len() == 0 {
        (Seq::empty(), false)
    } else {
        let (rows, in_table) = top_scan(lines.drop_last());
        let t = trim(lines.last());
        if is_top_header(t) {
            (Seq::empty(), true)
        } else if !in_table || t.len() == 0 {
            (rows, in_table)
        } else {
            match top_row(t) {
                Some(r) => (rows.push(r), in_table),
                None => (rows, in_table),
            }
        }
    }
}

/// Every header drops what came before it: the rows read after a header do
/// not depend on the lines before that header.
pub proof fn law_header_resets_rows(pre: Seq<Seq<char>>, h: Seq<char>, post: Seq<Seq<char>>)
    requires
        is_top_header(trim(h)),
    ensures
        top_scan(pre.push(h) + post) == top_scan(seq![h] + post),
    decreases post.len(),
{
    if post.len() == 0 {
        assert(pre.push(h) + post =~= pre.push(h));
        assert(seq![h] + post =~= seq![h]);
        assert(pre.push(h).drop_last() =~= pre);
        assert(seq![h].drop_last() =~= Seq::<Seq<char>>::empty());
    } else {
        law_header_resets_rows(pre, h, post.drop_last());
        assert((pre.push(h) + post).drop_last() =~= pre.push(h) + post.drop_last());
        assert((seq![h] + post).drop_last() =~= seq![h] + post.drop_last());
        assert((pre.push(h) + post).last() == post.last());
        assert((seq![h] + post).last() == post.last());
    }
}

pub open spec fn top_models(rows: Seq<TopRow>) -> Seq<(int, Seq<char>, Seq<char>)> {
    rows.map_values(|r: TopRow| r.model())
}

fn top_row_of(t: &[char]) -> (r: Option<TopRow>)
    ensures
        match r {
            Some(row) => top_row(t@) == Some(row.model()),
            None => top_row(t@) is None,
        },
{
    let ws = split_words(t);
    let n = ws.len();
    if n < 2 {
        return None;
    }
    assert(views(ws@)[0] == ws@[0]@);
    assert(views(ws@).last() == ws@[n - 1]@);
    match parse_u32(ws[0].as_slice()) {
        Some(pid) => {
            let command = join_spaced(ws.as_slice(), 1, n - 1);
            let power = string_from_chars(ws[n - 1].as_slice());
            let cmd = string_from_chars(command.as_slice());
            Some(TopRow { pid, command: cmd, power })
        },
        None => None,
    }
}

/// Reads the process table of `top`'s output: the rows after the last header.
pub fn parse_top_rows(text: &str) -> (rows: Vec<TopRow>)
    ensures
        top_models(rows@) == top_scan(lines_of(text@)).0,
{
    let cs = chars_of(text);
    let lines = split_lines(cs.as_slice());
    let pid_lit = chars_of("PID");
    let command_lit = chars_of("COMMAND");
    let mut rows: Vec<TopRow> = Vec::new();
    let mut in_table = false;
    let n = lines.len();
    let mut i: usize = 0;
    while i < n
        invariant
            i <= n == lines@.len(),
            pid_lit@ == "PID"@,
            command_lit@ == "COMMAND"@,
            (top_models(rows@), in_table) == top_scan(views(lines@).take(i as int)),
            views(lines@) == lines_of(text@),
        decreases n - i,
    {
        let ghost pre = views(lines@).take(i + 1);
        assert(pre.drop_last() =~= views(lines@).take(i as int));
        assert(pre.last() == lines@[i as int]@);
        let t = trimmed(lines[i].as_slice());
        if has_prefix(t.as_slice(), pid_lit.as_slice()) && find_in(
            t.as_slice(),
            command_lit.as_slice(),
        ).is_some() {
            rows.clear();
            in_table = true;
            assert(top_models(rows@) =~= Seq::empty());
        } else if !in_table || t.len() == 0 {
        } else {
            match top_row_of(t.as_slice()) {
                Some(row) => {
                    let ghost old_models = top_models(rows@);
                    rows.push(row);
                    assert(top_models(rows@) =~= old_models.push(row.model()));
                },
                None => {},
            }
        }
        i += 1;
    }
    assert(views(lines@).take(n as int) =~= views(lines@));
    rows
}


// ---------------------------------------------------------------------------
// One process: `ps -p PID -o ppid=,user=,%cpu=,%mem=,etime=,comm=`
// ---------------------------------------------------------------------------

/// What is known of a process; `cpu_percent_bits` and `mem_percent_bits` hold the
/// bits of the `f32` readings (`f32::to_bits`).
#[derive(Debug, Clone, Default, PartialEq, Eq)]
pub struct ProcessDetail {
    pub pid: u32,
    pub ppid: u32,
    pub parent_command: Option<String>,
    pub user: String,
    pub cpu_percent_bits: u32,
    pub mem_percent_bits: u32,
    pub elapsed: String,
    pub full_command: String,
    pub bundle_name: Option<String>,
    pub bundle_id: Option<String>,
    pub bundle_version: Option<String>,
    pub launchd_label: Option<String>,
}

/// The columns of one `ps` line; the two percentages as printed.
#[derive(Debug, Clone, PartialEq, Eq)]
pub struct PsFields {
    pub ppid: u32,
    pub user: String,
    pub cpu: String,
    pub mem: String,
    pub elapsed: String,
    pub full_command: String,
}

/// The error that a `ps` line gives: none where it is not blank and holds at
/// least five words (the sixth and later form the command).
pub open spec fn ps_error(text: Seq<char>, pid: u32) -> Option<PowerError> {
    let t = trim(text);
    let ws = words(t);
    if t.len() == 0 {
        Some(PowerError::ProcessGone { pid })
    } else if ws.len() < 1 {
        Some(PowerError::MissingPsField { field: PsField::Ppid })
    } else if ws.len() < 2 {
        Some(PowerError::MissingPsField { field: PsField::User })
    } else if ws.len() < 3 {
        Some(PowerError::MissingPsField { field: PsField::Cpu })
    } else if ws.len() < 4 {
        Some(PowerError::MissingPsField { field: PsField::Mem })
    } else if ws.len() < 5 {
        Some(PowerError::MissingPsField { field: PsField::Etime })
    } else {
        None
    }
}

/// Reads the output of `ps` for one process. A ppid that is not a `u32` reads as 0.
pub fn parse_ps_fields(text: &str, pid: u32) -> (r: Result<PsFields, PowerError>)
    ensures
        ps_error(text@, pid) matches Some(e) ==> r == Err::<PsFields, PowerError>(e),
        ps_error(text@, pid) is None ==> (r matches Ok(f) && {
            let ws = words(trim(text@));
            &&& f.ppid == match parse_unsigned(ws[0], u32::MAX as int) {
                Some(v) => v,
                None => 0,
            }
            &&& f.user@ == ws[1]
            &&& f.cpu@ == ws[2]
            &&& f.mem@ == ws[3]
            &&& f.elapsed@ == ws[4]
            &&& f.full_command@ == join(ws.skip(5), seq![' '])
        }),
{
    let cs = chars_of(text);
    let t = trimmed(cs.as_slice());
    if t.len() == 0 {
        return Err(PowerError::ProcessGone { pid });
    }
    let ws = split_words(t.as_slice());
    let n = ws.len();
    if n < 1 {
        return Err(PowerError::MissingPsField { field: PsField::Ppid });
    }
    if n < 2 {
        return Err(PowerError::MissingPsField { field: PsField::User });
    }
    if n < 3 {
        return Err(PowerError::MissingPsField { field: PsField::Cpu });
    }
    if n < 4 {
        return Err(PowerError::MissingPsField { field: PsField::Mem });
    }
    if n < 5 {
        return Err(PowerError::MissingPsField { field: PsField::Etime });
    }
    assert(views(ws@)[0] == ws@[0]@);
    assert(views(ws@)[1] == ws@[1]@);
    assert(views(ws@)[2] == ws@[2]@);
    assert(views(ws@)[3] == ws@[3]@);
    assert(views(ws@)[4] == ws@[4]@);
    assert(views(ws@).subrange(5, n as int) =~= views(ws@).skip(5));
    let ppid = match parse_u32(ws[0].as_slice()) {
        Some(v) => v,
        None => 0,
    };
    let full = join_spaced(ws.as_slice(), 5, n);
    Ok(
        PsFields {
            ppid,
            user: string_from_chars(ws[1].as_slice()),
            cpu: string_from_chars(ws[2].as_slice()),
            mem: string_from_chars(ws[3].as_slice()),
            elapsed: string_from_chars(ws[4].as_slice()),
            full_command: string_from_chars(full.as_slice()),
        },
    )
}

/// The output of a command, trimmed, where it is not empty.
pub open spec fn nonempty_trim(text: Seq<char>) -> Option<Seq<char>> {
    if trim(text).len() == 0 {
        None
    } else {
        Some(trim(text))
    }
}

/// The parent's command, from the output of `ps -p PPID -o comm=`.
pub fn parent_command_from(text: &str) -> (r: Option<String>)
    ensures
        r.deep_view() == nonempty_trim(text@),
{
    let cs = chars_of(text);
    let t = trimmed(cs.as_slice());
    if t.len() == 0 {
        None
    } else {
        Some(string_from_chars(t.as_slice()))
    }
}

/// The `.app` bundle that a command runs from: the command up to and including
/// the `.app` of its first `.app/`.
pub open spec fn bundle_of(command: Seq<char>) -> Option<Seq<char>> {
    match find(command, ".app/"@) {
        Some(i) => Some(command.take(i + 4)),
        None => None,
    }
}

/// The bundle of a command is the command up to and including `.app` of its
/// first `.app/`: for `PRE.app/POST` where no `.app/` starts inside PRE, it
/// is `PRE.app`.
pub proof fn law_bundle_is_prefix(pre: Seq<char>, post: Seq<char>)
    requires
        forall|j: int|
            0 <= j < pre.len() ==> !#[trigger] occurs_at(pre + ".app/"@ + post, ".app/"@, j),
    ensures
        bundle_of(pre + ".app/"@ + post) == Some(pre + ".app"@),
{
    reveal_strlit(".app/");
    reveal_strlit(".app");
    let s = pre + ".app/"@ + post;
    let k = pre.len() as int;
    assert(s.subrange(k, k + 5) =~= ".app/"@);
    assert(first_at(s, ".app/"@, k));
    let m = choose|m: int| #[trigger] first_at(s, ".app/"@, m);
    lemma_first_at_unique(s, ".app/"@, k, m);
    assert(s.take(k + 4) =~= pre + ".app"@);
}

pub fn bundle_path(full_command: &str) -> (r: Option<String>)
    ensures
        r.deep_view() == bundle_of(full_command@),
{
    let cs = chars_of(full_command);
    let pat = chars_of(".app/");
    proof {
        reveal_strlit(".app/");
    }
    assert(pat@.len() == 5);
    match find_in(cs.as_slice(), pat.as_slice()) {
        Some(i) => {
            let len = cs.len();
            assert(i + 4 < len);
            let p = copy_range(cs.as_slice(), 0, i + 4);
            assert(p@ =~= cs@.take(i + 4));
            Some(string_from_chars(p.as_slice()))
        },
        None => None,
    }
}

/// The path of a bundle's `Info.plist`.
pub fn info_plist_path(bundle: &str) -> (r: String)
    ensures
        r@ == bundle@ + "/Contents/Info.plist"@,
{
    let mut r = String::from_str(bundle);
    r.append("/Contents/Info.plist");
    r
}

/// The value that `plutil -extract KEY raw` printed: none where it failed or
/// printed only whitespace.
pub fn plist_value(success: bool, stdout: &str) -> (r: Option<String>)
    ensures
        r.deep_view() == if success {
            nonempty_trim(stdout@)
        } else {
            None
        },
{
    if !success {
        return None;
    }
    parent_command_from(stdout)
}

/// The label column of a line of `launchctl list` whose pid column is `pid`.
pub open spec fn label_in_line(line: Seq<char>, pid: u32) -> Option<Seq<char>> {
    let cols = split_on(line, '\t');
    if cols.len() >= 3 && cols[0] == decimal(pid as nat) {
        Some(cols[2])
    } else {
        None
    }
}

/// The label of the first line that gives one.
pub open spec fn label_in_lines(lines: Seq<Seq<char>>, pid: u32) -> Option<Seq<char>>
    decreases lines.len(),
{
    if lines.len() == 0 {
        None
    } else if label_in_line(lines[0], pid) is Some {
        label_in_line(lines[0], pid)
    } else {
        label_in_lines(lines.drop_first(), pid)
    }
}

/// A `launchctl list` line `PID<tab>STATUS<tab>LABEL[<tab>...]` gives LABEL
/// for that pid and nothing for any other pid.
pub proof fn law_launchd_line(pid: u32, status: Seq<char>, label: Seq<char>, rest: Seq<char>, q: u32)
    requires
        !status.contains('\t'),
        !label.contains('\t'),
        rest.len() == 0 || rest[0] == '\t',
    ensures
        ({
            let line = decimal(pid as nat) + seq!['\t'] + status + seq!['\t'] + label + rest;
            &&& label_in_line(line, pid) == Some(label)
            &&& q != pid ==> label_in_line(line, q) is None
        }),
{
    let d = decimal(pid as nat);
    law_decimal_is_digits(pid as nat);
    assert(!d.contains('\t')) by {
        if d.contains('\t') {
            let i = choose|i: int| 0 <= i < d.len() && d[i] == '\t';
            assert(is_digit(d[i]));
        }
    }
    lemma_split_on_no_sep(d, '\t');
    lemma_split_on_no_sep(status, '\t');
    lemma_split_on_no_sep(label, '\t');
    let tail = if rest.len() == 0 {
        Seq::<Seq<char>>::empty()
    } else {
        split_on(rest.drop_first(), '\t')
    };
    if rest.len() == 0 {
        assert(label + rest =~= label);
        lemma_split_on_concat(status, label, '\t');
    } else {
        assert(label + rest =~= label + seq!['\t'] + rest.drop_first());
        lemma_split_on_concat(label, rest.drop_first(), '\t');
        lemma_split_on_concat(status, label + rest, '\t');
    }
    let line = d + seq!['\t'] + status + seq!['\t'] + label + rest;
    assert(line =~= d + seq!['\t'] + (status + seq!['\t'] + (label + rest)));
    lemma_split_on_concat(d, status + seq!['\t'] + (label + rest), '\t');
    let cols = split_on(line, '\t');
    assert(cols[0] == d);
    assert(cols[1] == status);
    assert(cols[2] == label);
    law_decimal_injective(pid as nat, q as nat);
}

/// Finds the launchd label of `pid` in the output of `launchctl list`.
pub fn find_launchd_label(text: &str, pid: u32) -> (r: Option<String>)
    ensures
        r.deep_view() == label_in_lines(lines_of(text@), pid),
{
    let cs = chars_of(text);
    let lines = split_lines(cs.as_slice());
    let pid_str = decimal_chars(pid as u64);
    let n = lines.len();
    let mut i: usize = 0;
    assert(views(lines@).skip(0) =~= views(lines@));
    while i < n
        invariant
            i <= n == lines@.len(),
            pid_str@ == decimal(pid as nat),
            views(lines@) == lines_of(text@),
            label_in_lines(views(lines@), pid) == label_in_lines(views(lines@).skip(i as int), pid),
        decreases n - i,
    {
        let ghost rest = views(lines@).skip(i as int);
        assert(rest[0] == lines@[i as int]@);
        assert(rest.drop_first() =~= views(lines@).skip(i + 1));
        let cols = split_char(lines[i].as_slice(), '\t');
        if cols.len() >= 3 && same_chars(cols[0].as_slice(), pid_str.as_slice()) {
            assert(views(cols@)[0] == cols@[0]@);
            assert(views(cols@)[2] == cols@[2]@);
            return Some(string_from_chars(cols[2].as_slice()));
        }
        proof {
            if cols@.len() >= 3 {
                assert(views(cols@)[0] == cols@[0]@);
            }
        }
        i += 1;
    }
    None
}

/// Reads the output of `ps -p PID -o nice=`.
pub fn parse_nice(text: &str, pid: u32) -> (r: Result<i32, PowerError>)
    ensures
        trim(text@).len() == 0 ==> r == Err::<i32, PowerError>(PowerError::ProcessGone { pid }),
        trim(text@).len() > 0 ==> match parse_signed(trim(text@), i32::MIN as int, i32::MAX as int) {
            Some(v) => r == Ok::<i32, PowerError>(v as i32),
            None => r == Err::<i32, PowerError>(PowerError::BadNice),
        },
{
    let cs = chars_of(text);
    let t = trimmed(cs.as_slice());
    if t.len() == 0 {
        return Err(PowerError::ProcessGone { pid });
    }
    match parse_i32(t.as_slice()) {
        Some(v) => Ok(v),
        None => Err(PowerError::BadNice),
    }
}

/// The nice value that `ps` prints reads back as itself.
pub proof fn law_nice_reads_back(v: i32)
    ensures
        parse_signed(trim(signed_decimal(v as int)), i32::MIN as int, i32::MAX as int) == Some(
            v as int,
        ),
{
    let s = signed_decimal(v as int);
    if v < 0 {
        let d = decimal((-v) as nat);
        law_decimal_is_digits((-v) as nat);
        assert(is_digit(d.last()));
        assert(s.last() == d.last());
    } else {
        law_decimal_is_digits(v as nat);
        assert(is_digit(s[0]));
        assert(is_digit(s.last()));
    }
    assert(trim_start(s) == s);
    assert(trim_end(s) == s);
    law_signed_decimal_parses_back(v as int, i32::MIN as int, i32::MAX as int);
}

// ---------------------------------------------------------------------------
// Battery current: `ioreg -rn AppleSmartBattery`
// ---------------------------------------------------------------------------

/// The instantaneous power; the fields hold the bits of the `f64` values
/// (`f64::to_bits`). Positive while charging, negative while discharging.
#[derive(Debug, Clone, Copy, PartialEq, Eq, Structural)]
pub struct InstantPower {
    pub watts_bits: u64,
    pub percent_per_hour_bits: u64,
}

/// The three readings that the instantaneous power is computed from.
#[derive(Debug, Clone, Copy, PartialEq, Eq, Structural)]
pub struct IoregReadings {
    pub amperage_ma: i64,
    pub voltage_mv: i64,
    pub max_capacity_mah: i64,
}

/// A `u64` read back as the `i64` with the same bits.
pub open spec fn as_signed(v: int) -> int {
    if v <= i64::MAX {
        v
    } else {
        v - 0x1_0000_0000_0000_0000
    }
}

/// A negative reading, printed as the `u64` with the same bits, reads back as
/// itself; so does a non-negative one.
pub proof fn law_signed_reading_round_trip(x: i64)
    ensures
        as_signed(if x >= 0 {
            x as int
        } else {
            x + 0x1_0000_0000_0000_0000
        }) == x,
{
}

/// `"KEY" = `, the start of the line that gives a reading.
pub open spec fn ioreg_needle(key: Seq<char>) -> Seq<char> {
    seq!['"'] + key + "\" = "@
}

/// The first line that, without its leading whitespace, starts with `p`; without
/// that whitespace.
pub open spec fn first_indented_with_prefix(lines: Seq<Seq<char>>, p: Seq<char>) -> Option<
    Seq<char>,
>
    decreases lines.len(),
{
    if lines.len() == 0 {
        None
    } else if starts_with(trim_start(lines[0]), p) {
        Some(trim_start(lines[0]))
    } else {
        first_indented_with_prefix(lines.drop_first(), p)
    }
}

/// The reading `key`: the rest of its first line, trimmed, as a `u64` read
/// back as an `i64`; none where the line is missing or the value is not a `u64`.
pub open spec fn ioreg_value(text: Seq<char>, key: Seq<char>) -> Option<int> {
    let needle = ioreg_needle(key);
    match first_indented_with_prefix(lines_of(text), needle) {
        Some(l) => match parse_unsigned(trim(l.skip(needle.len() as int)), u64::MAX as int) {
            Some(v) => Some(as_signed(v)),
            None => None,
        },
        None => None,
    }
}

/// Reads the value of `key` from the output of `ioreg`.
pub fn extract_ioreg_signed(text: &str, key: &str) -> (r: Option<i64>)
    ensures
        match r {
            Some(v) => ioreg_value(text@, key@) == Some(v as int),
            None => ioreg_value(text@, key@) is None,
        },
{
    let mut nd = String::from_str("\"");
    nd.append(key);
    nd.append("\" = ");
    let needle = chars_of(nd.as_str());
    proof {
        reveal_strlit("\"");
        assert(needle@ =~= ioreg_needle(key@));
    }
    let cs = chars_of(text);
    let lines = split_lines(cs.as_slice());
    let n = lines.len();
    let mut i: usize = 0;
    assert(views(lines@).skip(0) =~= views(lines@));
    while i < n
        invariant
            i <= n == lines@.len(),
            needle@ == ioreg_needle(key@),
            views(lines@) == lines_of(text@),
            first_indented_with_prefix(views(lines@), needle@) == first_indented_with_prefix(
                views(lines@).skip(i as int),
                needle@,
            ),
        decreases n - i,
    {
        let ghost rest = views(lines@).skip(i as int);
        assert(rest[0] == lines@[i as int]@);
        assert(rest.drop_first() =~= views(lines@).skip(i + 1));
        let l = trimmed_start(lines[i].as_slice());
        if has_prefix(l.as_slice(), needle.as_slice()) {
            let value = copy_range(l.as_slice(), needle.len(), l.len());
            assert(value@ =~= l@.skip(needle@.len() as int));
            let t = trimmed(value.as_slice());
            return match parse_u64(t.as_slice()) {
                Some(v) => {
                    if v <= 0x7fff_ffff_ffff_ffff {
                        Some(v as i64)
                    } else {
                        Some(0 - ((0xffff_ffff_ffff_ffff - v) as i64) - 1)
                    }
                },
                None => None,
            };
        }
        i += 1;
    }
    None
}

/// The reading errors of `ioreg_readings`, in the order it checks them.
pub open spec fn ioreg_error(text: Seq<char>) -> Option<PowerError> {
    if ioreg_value(text, "InstantAmperage"@) is None && ioreg_value(text, "Amperage"@) is None {
        Some(PowerError::MissingIoreg { key: IoregKey::Amperage })
    } else if ioreg_value(text, "Voltage"@) is None {
        Some(PowerError::MissingIoreg { key: IoregKey::Voltage })
    } else if ioreg_value(text, "AppleRawMaxCapacity"@) is None {
        Some(PowerError::MissingIoreg { key: IoregKey::MaxCapacity })
    } else {
        None
    }
}

/// Reads the current (`InstantAmperage`, else `Amperage`), the voltage and the
/// raw full capacity from the output of `ioreg`.
pub fn ioreg_readings(text: &str) -> (r: Result<IoregReadings, PowerError>)
    ensures
        ioreg_error(text@) matches Some(e) ==> r == Err::<IoregReadings, PowerError>(e),
        ioreg_error(text@) is None ==> (r matches Ok(g) && {
            &&& Some(g.amperage_ma as int) == if ioreg_value(text@, "InstantAmperage"@) is Some {
                ioreg_value(text@, "InstantAmperage"@)
            } else {
                ioreg_value(text@, "Amperage"@)
            }
            &&& Some(g.voltage_mv as int) == ioreg_value(text@, "Voltage"@)
            &&& Some(g.max_capacity_mah as int) == ioreg_value(text@, "AppleRawMaxCapacity"@)
        }),
{
    let amperage_ma = match extract_ioreg_signed(text, "InstantAmperage") {
        Some(v) => v,
        None => match extract_ioreg_signed(text, "Amperage") {
            Some(v) => v,
            None => {
                return Err(PowerError::MissingIoreg { key: IoregKey::Amperage });
            },
        },
    };
    let voltage_mv = match extract_ioreg_signed(text, "Voltage") {
        Some(v) => v,
        None => {
            return Err(PowerError::MissingIoreg { key: IoregKey::Voltage });
        },
    };
    let max_capacity_mah = match extract_ioreg_signed(text, "AppleRawMaxCapacity") {
        Some(v) => v,
        None => {
            return Err(PowerError::MissingIoreg { key: IoregKey::MaxCapacity });
        },
    };
    Ok(IoregReadings { amperage_ma, voltage_mv, max_capacity_mah })
}


// ---------------------------------------------------------------------------
// Sleep and wake history: `pmset -g log`
// ---------------------------------------------------------------------------

#[derive(Debug, Clone, Copy, PartialEq, Eq, Structural)]
pub enum WakeEventKind {
    Sleep,
    DarkWake,
    Wake,
}

#[derive(Debug, Clone, PartialEq, Eq)]
pub struct WakeEvent {
    /// "YYYY-MM-DD HH:MM:SS", kept as a plain string: comparing such strings
    /// compares the times they write.
    pub timestamp: String,
    pub kind: WakeEventKind,
    pub reason: String,
}

impl WakeEvent {
    pub open spec fn model(self) -> (Seq<char>, WakeEventKind, Seq<char>) {
        (self.timestamp@, self.kind, self.reason@)
    }
}

pub open spec fn event_models(es: Seq<WakeEvent>) -> Seq<(Seq<char>, WakeEventKind, Seq<char>)> {
    es.map_values(|e: WakeEvent| e.model())
}

/// `str::split_once` with a character.
pub open spec fn split_once(s: Seq<char>, c: char) -> Option<(Seq<char>, Seq<char>)> {
    match find(s, seq![c]) {
        Some(i) => Some((s.take(i), s.skip(i + 1))),
        None => None,
    }
}

/// The kind that a log line's type column names.
pub open spec fn kind_named(t: Seq<char>) -> Option<WakeEventKind> {
    if t == "Sleep"@ {
        Some(WakeEventKind::Sleep)
    } else if t == "DarkWake"@ {
        Some(WakeEventKind::DarkWake)
    } else if t == "Wake"@ {
        Some(WakeEventKind::Wake)
    } else {
        None
    }
}

/// The reason of a log message: the quoted text right after its first `due to `,
/// trimmed; else the text after `due to ` up to ` Using`, trimmed, where that is
/// not empty; else the whole message, trimmed.
pub open spec fn wake_reason(m: Seq<char>) -> Seq<char> {
    match find(m, "due to "@) {
        Some(idx) => {
            let after = m.skip(idx + 7);
            let quoted = if after.len() > 0 && after[0] == '\'' {
                match find(after.drop_first(), seq!['\'']) {
                    Some(e) => Some(trim(after.drop_first().take(e))),
                    None => None,
                }
            } else {
                None
            };
            match quoted {
                Some(q) => q,
                None => {
                    let end = match find(after, " Using"@) {
                        Some(e) => e,
                        None => after.len() as int,
                    };
                    let r = trim(after.take(end));
                    if r.len() > 0 {
                        r
                    } else {
                        trim(m)
                    }
                },
            }
        },
        None => trim(m),
    }
}

/// The event a log line writes: `DATE TIME TZ TYPE<tab>MESSAGE`, with a type
/// (trimmed) of `Sleep`, `DarkWake` or `Wake`.
pub open spec fn wake_line(line: Seq<char>) -> Option<(Seq<char>, WakeEventKind, Seq<char>)> {
    match split_once(line, '\t') {
        Some((header, message)) => match split_once(header, ' ') {
            Some((date, r1)) => match split_once(r1, ' ') {
                Some((time, r2)) => match split_once(r2, ' ') {
                    Some((_tz, ty)) => match kind_named(trim(ty)) {
                        Some(k) => Some((date + seq![' '] + time, k, wake_reason(message))),
                        None => None,
                    },
                    None => None,
                },
                None => None,
            },
            None => None,
        },
        None => None,
    }
}

proof fn lemma_split_once_first(a: Seq<char>, b: Seq<char>, c: char)
    requires
        !a.contains(c),
    ensures
        split_once(a + seq![c] + b, c) == Some((a, b)),
{
    let s = a + seq![c] + b;
    let k = a.len() as int;
    assert(s.subrange(k, k + 1) =~= seq![c]);
    assert(occurs_at(s, seq![c], k));
    assert forall|j: int| 0 <= j < k implies !#[trigger] occurs_at(s, seq![c], j) by {
        if occurs_at(s, seq![c], j) {
            assert(s.subrange(j, j + 1)[0] == s[j]);
            assert(a[j] == c);
        }
    }
    assert(first_at(s, seq![c], k));
    let m = choose|m: int| #[trigger] first_at(s, seq![c], m);
    lemma_first_at_unique(s, seq![c], k, m);
    assert(s.take(k) =~= a);
    assert(s.skip(k + 1) =~= b);
}

/// A log line of the form `DATE TIME TZ TYPE<tab>MESSAGE` is an event exactly
/// when its whole type column, trimmed, is `Sleep`, `DarkWake` or `Wake`; the
/// event's time is `DATE TIME` and its reason is the message's reason.
pub proof fn law_wake_line_type(
    date: Seq<char>,
    time: Seq<char>,
    tz: Seq<char>,
    ty: Seq<char>,
    msg: Seq<char>,
)
    requires
        !date.contains(' ') && !date.contains('\t'),
        !time.contains(' ') && !time.contains('\t'),
        !tz.contains(' ') && !tz.contains('\t'),
        !ty.contains('\t'),
    ensures
        ({
            let line = date + seq![' '] + time + seq![' '] + tz + seq![' '] + ty + seq!['\t'] + msg;
            let ts = date + seq![' '] + time;
            wake_line(line) == if trim(ty) == "Sleep"@ {
                Some((ts, WakeEventKind::Sleep, wake_reason(msg)))
            } else if trim(ty) == "DarkWake"@ {
                Some((ts, WakeEventKind::DarkWake, wake_reason(msg)))
            } else if trim(ty) == "Wake"@ {
                Some((ts, WakeEventKind::Wake, wake_reason(msg)))
            } else {
                None
            }
        }),
{
    let r2 = tz + seq![' '] + ty;
    let r1 = time + seq![' '] + r2;
    let header = date + seq![' '] + r1;
    let line = date + seq![' '] + time + seq![' '] + tz + seq![' '] + ty + seq!['\t'] + msg;
    assert(line =~= header + seq!['\t'] + msg);
    assert(!header.contains('\t')) by {
        if header.contains('\t') {
            let i = choose|i: int| 0 <= i < header.len() && header[i] == '\t';
            if i < date.len() {
                assert(date[i] == '\t');
            } else if i == date.len() {
            } else if i < date.len() + 1 + time.len() {
                assert(time[i - date.len() - 1] == '\t');
            } else if i == date.len() + 1 + time.len() {
            } else if i < date.len() + 2 + time.len() + tz.len() {
                assert(tz[i - date.len() - 2 - time.len()] == '\t');
            } else if i == date.len() + 2 + time.len() + tz.len() {
            } else {
                assert(ty[i - date.len() - 3 - time.len() - tz.len()] == '\t');
            }
        }
    }
    lemma_split_once_first(header, msg, '\t');
    lemma_split_once_first(date, r1, ' ');
    lemma_split_once_first(time, r2, ' ');
    lemma_split_once_first(tz, ty, ' ');
}

/// The events of the log lines, in order.
pub open spec fn wake_events(lines: Seq<Seq<char>>) -> Seq<(Seq<char>, WakeEventKind, Seq<char>)>
    decreases lines.len(),
{
    if lines.len() == 0 {
        Seq::empty()
    } else {
        match wake_line(lines.last()) {
            Some(e) => wake_events(lines.drop_last()).push(e),
            None => wake_events(lines.drop_last()),
        }
    }
}

fn split_once_at(s: &[char], c: char) -> (r: Option<(Vec<char>, Vec<char>)>)
    ensures
        match r {
            Some((a, b)) => split_once(s@, c) == Some((a@, b@)),
            None => split_once(s@, c) is None,
        },
{
    let mut pat: Vec<char> = Vec::new();
    pat.push(c);
    assert(pat@ =~= seq![c]);
    match find_in(s, pat.as_slice()) {
        Some(i) => {
            let len = s.len();
            assert(i + 1 <= len);
            let a = copy_range(s, 0, i);
            let b = copy_range(s, i + 1, len);
            assert(a@ =~= s@.take(i as int));
            assert(b@ =~= s@.skip(i + 1));
            Some((a, b))
        },
        None => None,
    }
}

fn kind_of(t: &[char]) -> (r: Option<WakeEventKind>)
    ensures
        r == kind_named(t@),
{
    if same_chars(t, chars_of("Sleep").as_slice()) {
        Some(WakeEventKind::Sleep)
    } else if same_chars(t, chars_of("DarkWake").as_slice()) {
        Some(WakeEventKind::DarkWake)
    } else if same_chars(t, chars_of("Wake").as_slice()) {
        Some(WakeEventKind::Wake)
    } else {
        None
    }
}

fn wake_reason_chars(m: &[char]) -> (r: Vec<char>)
    ensures
        r@ == wake_reason(m@),
{
    let due = chars_of("due to ");
    proof {
        reveal_strlit("due to ");
    }
    assert(due@.len() == 7);
    match find_in(m, due.as_slice()) {
        Some(idx) => {
            let len = m.len();
            assert(idx + 7 <= len);
            let after = copy_range(m, idx + 7, len);
            assert(after@ =~= m@.skip(idx + 7));
            if after.len() > 0 && after[0] == '\'' {
                let rest = copy_range(after.as_slice(), 1, after.len());
                assert(rest@ =~= after@.drop_first());
                let mut quote: Vec<char> = Vec::new();
                quote.push('\'');
                assert(quote@ =~= seq!['\'']);
                match find_in(rest.as_slice(), quote.as_slice()) {
                    Some(e) => {
                        let inner = copy_range(rest.as_slice(), 0, e);
                        assert(inner@ =~= rest@.take(e as int));
                        return trimmed(inner.as_slice());
                    },
                    None => {},
                }
            }
            let end = match find_in(after.as_slice(), chars_of(" Using").as_slice()) {
                Some(e) => e,
                None => after.len(),
            };
            let part = copy_range(after.as_slice(), 0, end);
            assert(part@ =~= after@.take(end as int));
            let r = trimmed(part.as_slice());
            if r.len() > 0 {
                r
            } else {
                trimmed(m)
            }
        },
        None => trimmed(m),
    }
}

/// The reason a `pmset -g log` message gives for an event.
pub fn extract_wake_reason(message: &str) -> (r: String)
    ensures
        r@ == wake_reason(message@),
{
    let m = chars_of(message);
    let r = wake_reason_chars(m.as_slice());
    string_from_chars(r.as_slice())
}

fn wake_line_event(line: &[char]) -> (r: Option<WakeEvent>)
    ensures
        match r {
            Some(e) => wake_line(line@) == Some(e.model()),
            None => wake_line(line@) is None,
        },
{
    let (header, message) = match split_once_at(line, '\t') {
        Some(p) => p,
        None => {
            return None;
        },
    };
    let (date, r1) = match split_once_at(header.as_slice(), ' ') {
        Some(p) => p,
        None => {
            return None;
        },
    };
    let (time, r2) = match split_once_at(r1.as_slice(), ' ') {
        Some(p) => p,
        None => {
            return None;
        },
    };
    let (_tz, ty) = match split_once_at(r2.as_slice(), ' ') {
        Some(p) => p,
        None => {
            return None;
        },
    };
    let t = trimmed(ty.as_slice());
    let kind = match kind_of(t.as_slice()) {
        Some(k) => k,
        None => {
            return None;
        },
    };
    let mut stamp = date;
    stamp.push(' ');
    let mut k: usize = 0;
    let ghost base = stamp@;
    while k < time.len()
        invariant
            k <= time@.len(),
            stamp@ == base + time@.take(k as int),
        decreases time@.len() - k,
    {
        stamp.push(time[k]);
        assert(time@.take(k + 1) =~= time@.take(k as int).push(time@[k as int]));
        k += 1;
    }
    assert(time@.take(time@.len() as int) =~= time@);
    let reason = wake_reason_chars(message.as_slice());
    let e = WakeEvent {
        timestamp: string_from_chars(stamp.as_slice()),
        kind,
        reason: string_from_chars(reason.as_slice()),
    };
    assert(e.model().0 =~= date@ + seq![' '] + time@);
    Some(e)
}

/// Reads the sleep and wake events of `pmset -g log`, in order.
pub fn parse_wake_events(text: &str) -> (es: Vec<WakeEvent>)
    ensures
        event_models(es@) == wake_events(lines_of(text@)),
{
    let cs = chars_of(text);
    let lines = split_lines(cs.as_slice());
    let mut events: Vec<WakeEvent> = Vec::new();
    let n = lines.len();
    let mut i: usize = 0;
    while i < n
        invariant
            i <= n == lines@.len(),
            views(lines@) == lines_of(text@),
            event_models(events@) == wake_events(views(lines@).take(i as int)),
        decreases n - i,
    {
        let ghost pre = views(lines@).take(i + 1);
        assert(pre.drop_last() =~= views(lines@).take(i as int));
        assert(pre.last() == lines@[i as int]@);
        match wake_line_event(lines[i].as_slice()) {
            Some(e) => {
                let ghost old_models = event_models(events@);
                events.push(e);
                assert(event_models(events@) =~= old_models.push(e.model()));
            },
            None => {},
        }
        i += 1;
    }
    assert(views(lines@).take(n as int) =~= views(lines@));
    events
}

} // verus!
