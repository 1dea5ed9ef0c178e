//! The decisions of the time ledger: estimates, commitments, the working day,
//! rest breaks, settings and recurrence.

use vstd::prelude::*;

use crate::model::{BreakSettings, DayPlan};
use crate::text::{
    chars_eq, chars_lt, chars_of, decimal, has_prefix, i64_string, lemma_decimal_round_trip, nth_item,
    parse_i64, parse_i64_spec, seq_lt, split2, split_nth, split_two, starts_with, str_eq, string_of,
    trim, trimmed,
};

verus! {

broadcast use vstd::string::group_string_axioms;

pub open spec fn max0(x: int) -> int {
    if x > 0 { x } else { 0 }
}

pub open spec fn clamp(x: int, lo: int, hi: int) -> int {
    if x < lo { lo } else if x > hi { hi } else { x }
}

/// `i64::clamp`.
pub fn clamp_i64(x: i64, lo: i64, hi: i64) -> (out: i64)
    requires
        lo <= hi,
    ensures
        out == clamp(x as int, lo as int, hi as int),
{
    if x < lo { lo } else if x > hi { hi } else { x }
}

/// Seconds the open segment of a task may still run so that its total tracked
/// time comes up to (never past) its estimate.
pub fn estimate_allowance_secs(estimate_min: i64, closed_secs: i64) -> (allow: i64)
    requires
        i64::MIN <= estimate_min * 60 <= i64::MAX,
        i64::MIN <= estimate_min * 60 - closed_secs <= i64::MAX,
    ensures
        allow == max0(estimate_min * 60 - closed_secs),
        allow >= 0,
        closed_secs <= estimate_min * 60 ==> closed_secs + allow == estimate_min * 60,
        closed_secs >= estimate_min * 60 ==> allow == 0,
{
    let a = estimate_min * 60 - closed_secs;
    if a > 0 { a } else { 0 }
}

/// The SQLite date modifier `+N seconds`.
pub fn seconds_after(n: i64) -> (out: String)
    ensures
        out@ == "+"@ + decimal(n as int) + " seconds"@,
{
    let mut s = String::from_str("+");
    s.append(i64_string(n).as_str());
    s.append(" seconds");
    s
}

/// The SQLite date modifier `-N seconds`: the instant input stopped.
pub fn seconds_before(n: i64) -> (out: String)
    ensures
        out@ == "-"@ + decimal(n as int) + " seconds"@,
{
    let mut s = String::from_str("-");
    s.append(i64_string(n).as_str());
    s.append(" seconds");
    s
}

/// How long "Snooze" defers the break prompt: `+N minutes`, N clamped to 1..=120.
pub fn snooze_modifier(min: i64) -> (out: String)
    ensures
        out@ == "+"@ + decimal(clamp(min as int, 1, 120)) + " minutes"@,
{
    let mut s = String::from_str("+");
    s.append(i64_string(clamp_i64(min, 1, 120)).as_str());
    s.append(" minutes");
    s
}

/// Remaining work of one live task: estimate minus tracked, when it has an estimate.
pub open spec fn remaining_of(t: (i64, i64)) -> int {
    if t.0 > 0 { max0(t.0 - t.1) } else { 0 }
}

pub open spec fn committed_sum(t: Seq<(i64, i64)>) -> int
    decreases t.len(),
{
    if t.len() == 0 {
        0
    } else {
        committed_sum(t.drop_last()) + remaining_of(t.last())
    }
}

proof fn lemma_committed_prefix(t: Seq<(i64, i64)>, i: int)
    requires
        0 <= i <= t.len(),
    ensures
        0 <= committed_sum(t.take(i)) <= committed_sum(t),
    decreases t.len() - i,
{
    if i < t.len() {
        assert(t.drop_last().take(i) =~= t.take(i));
        lemma_committed_prefix(t.drop_last(), i);
    } else {
        assert(t.take(i) =~= t);
        lemma_committed_nonneg(t);
    }
}

proof fn lemma_committed_nonneg(t: Seq<(i64, i64)>)
    ensures
        committed_sum(t) >= 0,
    decreases t.len(),
{
    if t.len() > 0 {
        lemma_committed_nonneg(t.drop_last());
    }
}

/// Work still committed for the rest of the day: the sum of the remaining
/// minutes (estimate minus tracked, never negative) over the live tasks
/// planned for today, given as `(estimate, tracked)`; tasks without an
/// estimate add nothing.
pub fn remaining_committed(tasks: &Vec<(i64, i64)>) -> (total: i64)
    requires
        committed_sum(tasks@) <= i64::MAX,
    ensures
        total == committed_sum(tasks@),
{
    let mut total: i128 = 0;
    let mut i: usize = 0;
    while i < tasks.len()
        invariant
            i <= tasks@.len(),
            committed_sum(tasks@) <= i64::MAX,
            total == committed_sum(tasks@.take(i as int)),
        decreases tasks@.len() - i,
    {
        let (est, spent) = tasks[i];
        proof {
            assert(tasks@.take(i + 1).drop_last() =~= tasks@.take(i as int));
            lemma_committed_prefix(tasks@, i + 1);
            lemma_committed_prefix(tasks@, i as int);
        }
        if est > 0 {
            let r = (est as i128) - (spent as i128);
            if r > 0 {
                total = total + r;
            }
        }
        i = i + 1;
    }
    proof {
        assert(tasks@.take(tasks@.len() as int) =~= tasks@);
        lemma_committed_nonneg(tasks@);
    }
    total as i64
}

/// Whether `remaining_committed` can sum these tasks in an `i64`.
pub fn committed_fits(tasks: &Vec<(i64, i64)>) -> (b: bool)
    ensures
        b == (committed_sum(tasks@) <= i64::MAX),
{
    let mut total: i128 = 0;
    let mut i: usize = 0;
    while i < tasks.len()
        invariant
            i <= tasks@.len(),
            total == committed_sum(tasks@.take(i as int)),
            total <= i64::MAX,
        decreases tasks@.len() - i,
    {
        let (est, spent) = tasks[i];
        proof {
            assert(tasks@.take(i + 1).drop_last() =~= tasks@.take(i as int));
        }
        if est > 0 {
            let r = (est as i128) - (spent as i128);
            if r > 0 {
                total = total + r;
            }
        }
        if total > 0x7FFF_FFFF_FFFF_FFFF {
            proof {
                lemma_committed_prefix(tasks@, i + 1);
            }
            return false;
        }
        i = i + 1;
    }
    proof {
        assert(tasks@.take(tasks@.len() as int) =~= tasks@);
    }
    true
}

pub open spec fn unwrap_or(o: Option<i64>, d: int) -> int {
    match o {
        Some(v) => v as int,
        None => d,
    }
}

/// The target of an `HH:MM` stop time, minutes from midnight: unparsable hour
/// falls back to 18, minute to 0, a string without `:` to 18:00.
pub open spec fn stop_target(s: Seq<char>) -> int {
    let (a, b) = split2(s, ':');
    match b {
        Some(m) => unwrap_or(parse_i64_spec(a), 18) * 60 + unwrap_or(parse_i64_spec(m), 0),
        None => 1080int,
    }
}

pub open spec fn stop_target_fits(s: Seq<char>, now_min: int) -> bool {
    let (a, b) = split2(s, ':');
    match b {
        Some(m) => {
            let h = unwrap_or(parse_i64_spec(a), 18);
            &&& i64::MIN <= h * 60 <= i64::MAX
            &&& i64::MIN <= stop_target(s) <= i64::MAX
            &&& i64::MIN <= stop_target(s) - now_min <= i64::MAX
        },
        None => i64::MIN <= 18 * 60 - now_min <= i64::MAX,
    }
}

/// Whether `minutes_until` can compute this stop time without overflow.
pub fn minutes_until_fits(hhmm: &str, now_min: i64) -> (b: bool)
    ensures
        b == stop_target_fits(hhmm@, now_min as int),
{
    let cs = chars_of(hhmm);
    let (a, b) = split_two(&cs, ':');
    match b {
        Some(m) => {
            let h = match parse_i64(&a) {
                Some(v) => v,
                None => 18,
            };
            let mm = match parse_i64(&m) {
                Some(v) => v,
                None => 0,
            };
            match h.checked_mul(60) {
                None => false,
                Some(x) => match x.checked_add(mm) {
                    None => false,
                    Some(t) => t.checked_sub(now_min).is_some(),
                },
            }
        },
        None => 1080i64.checked_sub(now_min).is_some(),
    }
}

/// Minutes from now (local minutes from midnight) until the `HH:MM` stop time,
/// never negative.
pub fn minutes_until(hhmm: &str, now_min: i64) -> (out: i64)
    requires
        stop_target_fits(hhmm@, now_min as int),
    ensures
        out == max0(stop_target(hhmm@) - now_min),
{
    let cs = chars_of(hhmm);
    let (a, b) = split_two(&cs, ':');
    let target: i64 = match b {
        Some(m) => {
            let h = match parse_i64(&a) {
                Some(v) => v,
                None => 18,
            };
            let mm = match parse_i64(&m) {
                Some(v) => v,
                None => 0,
            };
            h * 60 + mm
        },
        None => 1080,
    };
    let d = target - now_min;
    if d > 0 { d } else { 0 }
}

/// `HH:MM` (whitespace around each part allowed, minutes optional) as minutes
/// from midnight; `None` when malformed or out of range.
pub open spec fn hhmm_spec(s: Seq<char>) -> Option<int> {
    let (a, b) = split2(s, ':');
    let ms = match b {
        Some(m) => m,
        None => seq!['0'],
    };
    match (parse_i64_spec(trim(a)), parse_i64_spec(trim(ms))) {
        (Some(h), Some(m)) => if 0 <= h <= 23 && 0 <= m <= 59 {
            Some(h * 60 + m)
        } else {
            None
        },
        _ => None,
    }
}

/// Parse `HH:MM` into minutes from midnight.
pub fn parse_hhmm_min(hhmm: &str) -> (out: Option<i64>)
    ensures
        match out {
            Some(v) => hhmm_spec(hhmm@) == Some(v as int) && 0 <= v < 1440,
            None => hhmm_spec(hhmm@) is None,
        },
{
    let cs = chars_of(hhmm);
    let (a, b) = split_two(&cs, ':');
    let ms = match b {
        Some(m) => m,
        None => {
            let mut z: Vec<char> = Vec::new();
            z.push('0');
            proof {
                assert(z@ =~= seq!['0']);
            }
            z
        },
    };
    let h = parse_i64(&trimmed(&a));
    let m = parse_i64(&trimmed(&ms));
    match (h, m) {
        (Some(h), Some(m)) => {
            if 0 <= h && h <= 23 && 0 <= m && m <= 59 {
                Some(h * 60 + m)
            } else {
                None
            }
        },
        _ => None,
    }
}

pub open spec fn greeting_spec(hour: int) -> Seq<char> {
    if 5 <= hour <= 11 {
        "Good morning. Let's set the day."@
    } else if 12 <= hour <= 16 {
        "Afternoon. Keep the momentum."@
    } else if 17 <= hour <= 21 {
        "Evening. Let's land the day well."@
    } else {
        "Still up? Let's keep it gentle."@
    }
}

/// The hub's greeting for the local hour.
pub fn greeting(hour: i64) -> (out: String)
    ensures
        out@ == greeting_spec(hour as int),
{
    if 5 <= hour && hour <= 11 {
        String::from_str("Good morning. Let's set the day.")
    } else if 12 <= hour && hour <= 16 {
        String::from_str("Afternoon. Keep the momentum.")
    } else if 17 <= hour && hour <= 21 {
        String::from_str("Evening. Let's land the day well.")
    } else {
        String::from_str("Still up? Let's keep it gentle.")
    }
}

pub open spec fn weekday_name(w: int) -> Seq<char> {
    if w == 0 { "Sun"@ }
    else if w == 1 { "Mon"@ }
    else if w == 2 { "Tue"@ }
    else if w == 3 { "Wed"@ }
    else if w == 4 { "Thu"@ }
    else if w == 5 { "Fri"@ }
    else if w == 6 { "Sat"@ }
    else { "?"@ }
}

/// Short weekday name for SQLite's `%w` numbering (0 = Sunday).
pub fn weekday_short(w: i64) -> (out: &'static str)
    ensures
        out@ == weekday_name(w as int),
{
    if w == 0 { "Sun" }
    else if w == 1 { "Mon" }
    else if w == 2 { "Tue" }
    else if w == 3 { "Wed" }
    else if w == 4 { "Thu" }
    else if w == 5 { "Fri" }
    else if w == 6 { "Sat" }
    else { "?" }
}


/// A stored setting read as an integer, or `d` when unset or unparsable.
pub open spec fn setting_int(v: Option<Seq<char>>, d: int) -> int {
    match v {
        Some(s) => unwrap_or(parse_i64_spec(s), d),
        None => d,
    }
}

pub open spec fn opt_view(v: Option<&str>) -> Option<Seq<char>> {
    match v {
        Some(s) => Some(s@),
        None => None,
    }
}

pub fn setting_i64(v: Option<&str>, d: i64) -> (out: i64)
    ensures
        out == setting_int(opt_view(v), d as int),
{
    match v {
        Some(s) => match parse_i64(&chars_of(s)) {
            Some(x) => x,
            None => d,
        },
        None => d,
    }
}

/// The first day of the dashboard's week (0 = Sunday .. 6 = Saturday) from its
/// stored setting; Monday when unset or invalid.
pub open spec fn week_start_spec(v: Option<Seq<char>>) -> int {
    match v {
        Some(s) => match parse_i64_spec(s) {
            Some(d) => if 0 <= d <= 6 { d as int } else { 1 },
            None => 1,
        },
        None => 1,
    }
}

pub fn week_start_from(setting: Option<&str>) -> (out: i64)
    ensures
        out == week_start_spec(opt_view(setting)),
        0 <= out <= 6,
{
    match setting {
        Some(s) => match parse_i64(&chars_of(s)) {
            Some(d) => if 0 <= d && d <= 6 { d } else { 1 },
            None => 1,
        },
        None => 1,
    }
}

/// The value stored for a chosen week start: the day clamped to 0..=6.
pub fn week_start_value(day: i64) -> (out: String)
    ensures
        out@ == decimal(clamp(day as int, 0, 6)),
{
    i64_string(clamp_i64(day, 0, 6))
}

/// Reading back a stored week start gives the chosen day, clamped to 0..=6.
pub proof fn law_week_start_round_trip(day: int)
    ensures
        week_start_spec(Some(decimal(clamp(day, 0, 6)))) == clamp(day, 0, 6),
{
    lemma_decimal_round_trip(clamp(day, 0, 6));
}

/// Break settings as read from their stored values: unset or unparsable
/// numbers take their defaults (50, 5, 5), and every number is clamped to its
/// range; breaks are enabled unless the flag is exactly `0`.
pub open spec fn break_settings_spec(
    enabled: Option<Seq<char>>,
    work: Option<Seq<char>>,
    duration: Option<Seq<char>>,
    snooze: Option<Seq<char>>,
) -> (bool, int, int, int) {
    (
        match enabled {
            Some(v) => v != seq!['0'],
            None => true,
        },
        clamp(setting_int(work, 50), 5, 240),
        clamp(setting_int(duration, 5), 1, 60),
        clamp(setting_int(snooze, 5), 1, 60),
    )
}

pub open spec fn settings_tuple(s: BreakSettings) -> (bool, int, int, int) {
    (s.enabled, s.work_min as int, s.duration_min as int, s.snooze_min as int)
}

/// The rest-break settings from their stored values.
pub fn break_settings_from(
    enabled: Option<&str>,
    work: Option<&str>,
    duration: Option<&str>,
    snooze: Option<&str>,
) -> (out: BreakSettings)
    ensures
        settings_tuple(out) == break_settings_spec(
            opt_view(enabled),
            opt_view(work),
            opt_view(duration),
            opt_view(snooze),
        ),
{
    let en = match enabled {
        Some(v) => {
            let cs = chars_of(v);
            let mut zero: Vec<char> = Vec::new();
            zero.push('0');
            proof {
                assert(zero@ =~= seq!['0']);
            }
            !chars_eq(&cs, &zero)
        },
        None => true,
    };
    BreakSettings {
        enabled: en,
        work_min: clamp_i64(setting_i64(work, 50), 5, 240),
        duration_min: clamp_i64(setting_i64(duration, 5), 1, 60),
        snooze_min: clamp_i64(setting_i64(snooze, 5), 1, 60),
    }
}

pub open spec fn break_values_spec(s: BreakSettings) -> (Seq<char>, Seq<char>, Seq<char>, Seq<char>) {
    (
        if s.enabled { seq!['1'] } else { seq!['0'] },
        decimal(clamp(s.work_min as int, 5, 240)),
        decimal(clamp(s.duration_min as int, 1, 60)),
        decimal(clamp(s.snooze_min as int, 1, 60)),
    )
}

/// The values stored for the rest-break settings (enabled flag, work,
/// duration, snooze), each number clamped to its range.
pub fn break_settings_values(s: &BreakSettings) -> (out: (String, String, String, String))
    ensures
        (out.0@, out.1@, out.2@, out.3@) == break_values_spec(*s),
{
    let mut flag: Vec<char> = Vec::new();
    flag.push(if s.enabled { '1' } else { '0' });
    proof {
        if s.enabled {
            assert(flag@ =~= seq!['1']);
        } else {
            assert(flag@ =~= seq!['0']);
        }
    }
    (
        string_of(&flag),
        i64_string(clamp_i64(s.work_min, 5, 240)),
        i64_string(clamp_i64(s.duration_min, 1, 60)),
        i64_string(clamp_i64(s.snooze_min, 1, 60)),
    )
}

/// Saving the break settings and reading them back gives the settings with
/// every number clamped to its range.
pub proof fn law_break_settings_round_trip(s: BreakSettings)
    ensures
        ({
            let v = break_values_spec(s);
            break_settings_spec(Some(v.0), Some(v.1), Some(v.2), Some(v.3))
        }) == (
            s.enabled,
            clamp(s.work_min as int, 5, 240),
            clamp(s.duration_min as int, 1, 60),
            clamp(s.snooze_min as int, 1, 60),
        ),
{
    lemma_decimal_round_trip(clamp(s.work_min as int, 5, 240));
    lemma_decimal_round_trip(clamp(s.duration_min as int, 1, 60));
    lemma_decimal_round_trip(clamp(s.snooze_min as int, 1, 60));
    assert(seq!['1'] != seq!['0']) by {
        assert(seq!['1'][0] != seq!['0'][0]);
    }
}

/// The Break task is the one tracking.
pub fn is_on_break(active: Option<i64>, break_task: Option<i64>) -> (out: bool)
    ensures
        out == (active is Some && break_task is Some && active->0 == break_task->0),
{
    match (active, break_task) {
        (Some(a), Some(b)) => a == b,
        _ => false,
    }
}

/// Seconds left in a break of `duration_min` minutes after `elapsed_sec`.
pub fn break_remaining_sec(duration_min: i64, elapsed_sec: i64) -> (out: i64)
    requires
        i64::MIN <= duration_min * 60 - elapsed_sec <= i64::MAX,
        i64::MIN <= duration_min * 60 <= i64::MAX,
    ensures
        out == duration_min * 60 - elapsed_sec,
{
    duration_min * 60 - elapsed_sec
}

/// A gap of at least this many seconds with no tracked work ends the current
/// continuous-work streak.
pub const BREAK_STREAK_GAP_SECS: i64 = 300;

/// Where the trailing streak of work begins: just after the last gap of at
/// least five minutes between consecutive segments.
pub open spec fn streak_start(rows: Seq<(i64, i64)>) -> int
    decreases rows.len(),
{
    if rows.len() <= 1 {
        0
    } else if rows.last().0 - rows[rows.len() - 2].1 >= BREAK_STREAK_GAP_SECS {
        rows.len() - 1
    } else {
        streak_start(rows.drop_last())
    }
}

/// Seconds of the segments from index `from` on, each counted from no earlier
/// than the break anchor.
pub open spec fn streak_secs(rows: Seq<(i64, i64)>, from: int, anchor: int) -> int
    decreases rows.len(),
{
    if rows.len() == 0 || rows.len() <= from {
        0
    } else {
        let (s, e) = rows.last();
        let s2 = if s >= anchor { s as int } else { anchor };
        streak_secs(rows.drop_last(), from, anchor) + max0(e - s2)
    }
}

/// Whole minutes (rounded to nearest) of the current continuous work streak.
pub open spec fn worked_since_break_spec(rows: Seq<(i64, i64)>, anchor: int) -> int {
    if rows.len() == 0 {
        0
    } else {
        (streak_secs(rows, streak_start(rows), anchor) + 30) / 60
    }
}

proof fn lemma_streak_start_step(rows: Seq<(i64, i64)>, i: int)
    requires
        1 <= i < rows.len(),
    ensures
        streak_start(rows.take(i + 1)) == if rows[i].0 - rows[i - 1].1 >= BREAK_STREAK_GAP_SECS {
            i
        } else {
            streak_start(rows.take(i))
        },
{
    let t = rows.take(i + 1);
    assert(t.drop_last() =~= rows.take(i));
    assert(t.last() == rows[i]);
    assert(t[t.len() - 2] == rows[i - 1]);
}

proof fn lemma_streak_start_bound(rows: Seq<(i64, i64)>)
    ensures
        0 <= streak_start(rows) <= if rows.len() == 0 { 0 } else { rows.len() - 1 },
    decreases rows.len(),
{
    if rows.len() > 1 {
        lemma_streak_start_bound(rows.drop_last());
    }
}

proof fn lemma_streak_secs_prefix(rows: Seq<(i64, i64)>, from: int, anchor: int, i: int)
    requires
        0 <= i <= rows.len(),
    ensures
        0 <= streak_secs(rows.take(i), from, anchor) <= streak_secs(rows, from, anchor),
    decreases rows.len() - i,
{
    if i < rows.len() {
        assert(rows.drop_last().take(i) =~= rows.take(i));
        lemma_streak_secs_prefix(rows.drop_last(), from, anchor, i);
    } else {
        assert(rows.take(i) =~= rows);
        lemma_streak_secs_nonneg(rows, from, anchor);
    }
}

proof fn lemma_streak_secs_nonneg(rows: Seq<(i64, i64)>, from: int, anchor: int)
    ensures
        streak_secs(rows, from, anchor) >= 0,
    decreases rows.len(),
{
    if rows.len() > 0 {
        lemma_streak_secs_nonneg(rows.drop_last(), from, anchor);
    }
}

/// Minutes of the current continuous work streak, from the non-break segments
/// touching the window since the break anchor (`(start, end)` epoch seconds,
/// oldest first, an open segment ending at now). The streak restarts after any
/// gap of five minutes or more, and time before the anchor never counts.
pub fn worked_since_break(rows: &Vec<(i64, i64)>, anchor: i64) -> (out: i64)
    requires
        streak_secs(rows@, streak_start(rows@), anchor as int) <= i64::MAX - 30,
    ensures
        out == worked_since_break_spec(rows@, anchor as int),
{
    if rows.len() == 0 {
        return 0;
    }
    let mut start: usize = 0;
    let mut i: usize = 1;
    proof {
        assert(rows@.take(1).len() == 1);
    }
    while i < rows.len()
        invariant
            1 <= i <= rows@.len(),
            start == streak_start(rows@.take(i as int)),
        decreases rows@.len() - i,
    {
        proof {
            lemma_streak_start_step(rows@, i as int);
        }
        if (rows[i].0 as i128) - (rows[i - 1].1 as i128) >= BREAK_STREAK_GAP_SECS as i128 {
            start = i;
        }
        i = i + 1;
    }
    proof {
        assert(rows@.take(rows@.len() as int) =~= rows@);
        lemma_streak_start_bound(rows@);
    }
    let ghost st = start as int;
    let mut total: i128 = 0;
    let mut k: usize = 0;
    while k < rows.len()
        invariant
            k <= rows@.len(),
            st == start,
            streak_secs(rows@, st, anchor as int) <= i64::MAX - 30,
            total == streak_secs(rows@.take(k as int), st, anchor as int),
        decreases rows@.len() - k,
    {
        let (s, e) = rows[k];
        proof {
            assert(rows@.take(k + 1).drop_last() =~= rows@.take(k as int));
            lemma_streak_secs_prefix(rows@, st, anchor as int, k + 1);
            lemma_streak_secs_prefix(rows@, st, anchor as int, k as int);
        }
        if k >= start {
            let s2 = if s >= anchor { s } else { anchor };
            if e > s2 {
                total = total + ((e as i128) - (s2 as i128));
            }
        }
        k = k + 1;
    }
    proof {
        assert(rows@.take(rows@.len() as int) =~= rows@);
        lemma_streak_secs_nonneg(rows@, st, anchor as int);
    }
    ((total + 30) / 60) as i64
}


/// One recurrence step as a SQLite date modifier, applied in local wall-clock:
/// `daily`/`weekdays` step a day, `weekly` 7 days, `biweekly` 14, `monthly` a
/// month, `yearly` a year, `every:N:days|weeks|months` N units (N > 0).
/// `None` for one-shot or unrecognised rules.
pub open spec fn step_modifier_spec(r: Seq<char>) -> Option<Seq<char>> {
    if r == "daily"@ || r == "weekdays"@ {
        Some("+1 day"@)
    } else if r == "weekly"@ {
        Some("+7 days"@)
    } else if r == "biweekly"@ {
        Some("+14 days"@)
    } else if r == "monthly"@ {
        Some("+1 month"@)
    } else if r == "yearly"@ {
        Some("+1 year"@)
    } else if has_prefix(r, "every:"@) {
        match split_nth(r, ':', 1) {
            Some(ns) => match parse_i64_spec(ns) {
                Some(n) => if n > 0 {
                    match split_nth(r, ':', 2) {
                        Some(unit) => if unit == "days"@ {
                            Some("+"@ + decimal(n as int) + " days"@)
                        } else if unit == "weeks"@ {
                            Some("+"@ + decimal(n * 7) + " days"@)
                        } else if unit == "months"@ {
                            Some("+"@ + decimal(n as int) + " months"@)
                        } else {
                            None
                        },
                        None => None,
                    }
                } else {
                    None
                },
                None => None,
            },
            None => None,
        }
    } else {
        None
    }
}

/// A rule whose week count would overflow when turned into days.
pub open spec fn step_overflows(r: Seq<char>) -> bool {
    &&& has_prefix(r, "every:"@)
    &&& split_nth(r, ':', 1) matches Some(ns)
    &&& parse_i64_spec(ns) matches Some(n)
    &&& split_nth(r, ':', 2) == Some("weeks"@)
    &&& n * 7 > i64::MAX
}

/// Whether `step_modifier` can take this rule (its week count fits in days).
pub fn step_fits(rrule: &str) -> (b: bool)
    ensures
        b == !step_overflows(rrule@),
{
    let cs = chars_of(rrule);
    if !starts_with(&cs, &chars_of("every:")) {
        return true;
    }
    let ns = match nth_item(&cs, ':', 1) {
        Some(v) => v,
        None => return true,
    };
    let n = match parse_i64(&ns) {
        Some(n) => n,
        None => return true,
    };
    let weeks = match nth_item(&cs, ':', 2) {
        Some(u) => chars_eq(&u, &chars_of("weeks")),
        None => false,
    };
    !(weeks && n > 0 && n.checked_mul(7).is_none())
}

/// One recurrence step of a reminder rule, as the date modifier it applies.
pub fn step_modifier(rrule: &str) -> (out: Option<String>)
    requires
        !step_overflows(rrule@),
    ensures
        match out {
            Some(m) => step_modifier_spec(rrule@) == Some(m@),
            None => step_modifier_spec(rrule@) is None,
        },
{
    if str_eq(rrule, "daily") || str_eq(rrule, "weekdays") {
        return Some(String::from_str("+1 day"));
    } else if str_eq(rrule, "weekly") {
        return Some(String::from_str("+7 days"));
    } else if str_eq(rrule, "biweekly") {
        return Some(String::from_str("+14 days"));
    } else if str_eq(rrule, "monthly") {
        return Some(String::from_str("+1 month"));
    } else if str_eq(rrule, "yearly") {
        return Some(String::from_str("+1 year"));
    }
    let cs = chars_of(rrule);
    if !starts_with(&cs, &chars_of("every:")) {
        return None;
    }
    let ns = match nth_item(&cs, ':', 1) {
        Some(v) => v,
        None => return None,
    };
    let n = match parse_i64(&ns) {
        Some(n) => n,
        None => return None,
    };
    if n <= 0 {
        return None;
    }
    let unit = match nth_item(&cs, ':', 2) {
        Some(v) => v,
        None => return None,
    };
    let mut out = String::from_str("+");
    if chars_eq(&unit, &chars_of("days")) {
        out.append(i64_string(n).as_str());
        out.append(" days");
    } else if chars_eq(&unit, &chars_of("weeks")) {
        out.append(i64_string(n * 7).as_str());
        out.append(" days");
    } else if chars_eq(&unit, &chars_of("months")) {
        out.append(i64_string(n).as_str());
        out.append(" months");
    } else {
        return None;
    }
    Some(out)
}

/// What a recurrence pass does with the next candidate slot.
pub enum OccurrenceStep {
    /// The series is over (past its end bound).
    Ended,
    /// The slot is in the future: schedule it, with the fires left after it.
    Found { at: String, remaining: Option<i64> },
    /// The slot is already past: step again from it.
    Again { at: String, remaining: Option<i64> },
}

/// The series still has a fire left after the current one.
pub fn fires_left(remaining: Option<i64>) -> (out: bool)
    ensures
        out == (remaining != Some(0i64)),
{
    match remaining {
        Some(n) => n != 0,
        None => true,
    }
}

pub open spec fn dec_count(remaining: Option<i64>) -> Option<i64> {
    match remaining {
        Some(n) => Some((n - 1) as i64),
        None => None,
    }
}

/// Decide on the candidate slot `next` of a recurring reminder: past the
/// (inclusive) end bound the series ends; otherwise one fire is used up and the
/// slot is taken if it lies strictly after `now`, else stepped past. Each step
/// uses up one fire, so a counted series only ever counts down.
pub fn occurrence_step(next: String, until: Option<&str>, now: &str, remaining: Option<i64>) -> (out: OccurrenceStep)
    requires
        remaining != Some(i64::MIN),
    ensures
        match out {
            OccurrenceStep::Ended => until is Some && seq_lt(until->0@, next@),
            OccurrenceStep::Found { at, remaining: r } => (until is None || !seq_lt(until->0@, next@))
                && at@ == next@ && r == dec_count(remaining) && seq_lt(now@, next@),
            OccurrenceStep::Again { at, remaining: r } => (until is None || !seq_lt(until->0@, next@))
                && at@ == next@ && r == dec_count(remaining) && !seq_lt(now@, next@),
        },
        match out {
            OccurrenceStep::Found { remaining: r, .. } | OccurrenceStep::Again { remaining: r, .. } =>
                remaining matches Some(c) ==> (r matches Some(k) && k < c),
            OccurrenceStep::Ended => true,
        },
{
    let rem = match remaining {
        Some(n) => Some(n - 1),
        None => None,
    };
    let nc = chars_of(next.as_str());
    match until {
        Some(u) => {
            if chars_lt(&chars_of(u), &nc) {
                return OccurrenceStep::Ended;
            }
        },
        None => {},
    }
    if chars_lt(&chars_of(now), &nc) {
        OccurrenceStep::Found { at: next, remaining: rem }
    } else {
        OccurrenceStep::Again { at: next, remaining: rem }
    }
}

/// `weekdays` rules skip Saturday and Sunday, looking at most a week ahead.
pub fn skip_weekend(weekdays_rule: bool, is_weekend: bool, guard: i64) -> (out: bool)
    ensures
        out == (weekdays_rule && is_weekend && guard < 7),
{
    weekdays_rule && is_weekend && guard < 7
}


/// One character of a `LIKE` pattern: the wildcards `%` and `_` are escaped
/// with a backslash.
pub open spec fn like_char(c: char) -> Seq<char> {
    if c == '%' {
        seq!['\\', '%']
    } else if c == '_' {
        seq!['\\', '_']
    } else {
        seq![c]
    }
}

pub open spec fn like_escape(s: Seq<char>) -> Seq<char>
    decreases s.len(),
{
    if s.len() == 0 {
        Seq::empty()
    } else {
        like_escape(s.drop_last()) + like_char(s.last())
    }
}

/// The `LIKE` pattern that finds the trimmed query anywhere in a note or task
/// title; `None` for a blank query (which lists the most recent notes).
pub fn like_pattern(query: &str) -> (out: Option<String>)
    ensures
        trim(query@).len() == 0 ==> out is None,
        trim(query@).len() > 0 ==> (out matches Some(p) && p@ == seq!['%'] + like_escape(trim(query@)) + seq!['%']),
{
    let q = trimmed(&chars_of(query));
    if q.len() == 0 {
        return None;
    }
    let mut v: Vec<char> = Vec::new();
    v.push('%');
    let mut i: usize = 0;
    while i < q.len()
        invariant
            i <= q@.len(),
            v@ == seq!['%'] + like_escape(q@.take(i as int)),
        decreases q@.len() - i,
    {
        let c = q[i];
        let ghost pre = v@;
        if c == '%' {
            v.push('\\');
            v.push('%');
        } else if c == '_' {
            v.push('\\');
            v.push('_');
        } else {
            v.push(c);
        }
        proof {
            assert(q@.take(i + 1).drop_last() =~= q@.take(i as int));
            assert(v@ =~= pre + like_char(c));
        }
        i = i + 1;
    }
    v.push('%');
    proof {
        assert(q@.take(q@.len() as int) =~= q@);
    }
    Some(string_of(&v))
}

/// How many notes a search returns: the requested limit clamped to 1..=500.
pub fn note_limit(limit: i64) -> (out: i64)
    ensures
        out == clamp(limit as int, 1, 500),
{
    clamp_i64(limit, 1, 500)
}

/// A reminder's inclusive end bound: the end of the given local day, unless
/// it is blank.
pub fn until_bound(until_local: Option<&str>) -> (out: Option<String>)
    ensures
        match until_local {
            Some(d) => if trim(d@).len() > 0 {
                out matches Some(b) && b@ == d@ + " 23:59:59"@
            } else {
                out is None
            },
            None => out is None,
        },
{
    match until_local {
        Some(d) => {
            if trimmed(&chars_of(d)).len() > 0 {
                let mut b = String::from_str(d);
                b.append(" 23:59:59");
                Some(b)
            } else {
                None
            }
        },
        None => None,
    }
}

/// A stored worker message id, unless it is empty.
pub fn live_message_id(mid: Option<String>) -> (out: Option<String>)
    ensures
        match mid {
            Some(m) => if m@.len() > 0 {
                out matches Some(o) && o@ == m@
            } else {
                out is None
            },
            None => out is None,
        },
{
    match mid {
        Some(m) => if chars_of(m.as_str()).len() > 0 {
            Some(m)
        } else {
            None
        },
        None => None,
    }
}

/// The plan of a day nobody planned yet: no intentions, 8 hours, stop at 18:00.
pub fn default_day_plan(date: String) -> (out: DayPlan)
    ensures
        out.date@ == date@,
        out.intentions@.len() == 0,
        out.available_minutes == 480,
        out.stop_time matches Some(t) && t@ == "18:00"@,
{
    DayPlan {
        date,
        intentions: String::new(),
        available_minutes: 480,
        stop_time: Some(String::from_str("18:00")),
    }
}

/// The value remembered for the task to resume after a break: its id, or the
/// empty string when nothing was tracking.
pub fn resume_setting_value(resume: Option<i64>) -> (out: String)
    ensures
        match resume {
            Some(id) => out@ == decimal(id as int),
            None => out@.len() == 0,
        },
{
    match resume {
        Some(id) => i64_string(id),
        None => String::new(),
    }
}

/// The task to resume after a break, from its remembered value.
pub fn resume_task_id(setting: Option<&str>) -> (out: Option<i64>)
    ensures
        match setting {
            Some(s) => out == parse_i64_spec(s@),
            None => out is None,
        },
{
    match setting {
        Some(s) => parse_i64(&chars_of(s)),
        None => None,
    }
}

/// What is remembered when a break starts is what is resumed when it ends.
pub proof fn law_resume_round_trip(id: i64)
    ensures
        parse_i64_spec(decimal(id as int)) == Some(id),
        parse_i64_spec(Seq::<char>::empty()) is None,
{
    lemma_decimal_round_trip(id as int);
}

/// Labelling a focus span `work` against a task credits its time to that task.
pub fn credited_task(label: &str, task_id: Option<i64>) -> (out: Option<i64>)
    ensures
        out == if label@ == "work"@ { task_id } else { None },
{
    if str_eq(label, "work") { task_id } else { None }
}

/// A recurring daily task: its estimate is a per-day target, so its tracked
/// time is counted for today only.
pub fn is_daily_rule(recurrence: Option<&str>) -> (out: bool)
    ensures
        out == (recurrence is Some && recurrence->0@ == "daily"@),
{
    match recurrence {
        Some(r) => str_eq(r, "daily"),
        None => false,
    }
}

} // verus!
