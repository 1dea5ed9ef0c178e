//! The daily summary email: its settings, when it is due, and the HTML digest
//! of a day's dashboard.

use vstd::prelude::*;

use crate::dashboard::{app_minutes, cat_minutes};
use crate::ledger::{clamp, clamp_i64, max0, opt_view, setting_i64, setting_int};
use crate::model::{AppStat, CategoryStat, Dashboard, PauseStat, PlannedActual};
use crate::text::{
    after_last, char_uppercase, chars_of, dashes_to_spaces, decimal, esc_seq, i64_string,
    join, lemma_split_all_nonempty, lowercase, parse_i64, parse_i64_spec, replace_dashes,
    split_all, split_words, str_eq, string_of, tail_after, to_lowercase, trim, trimmed, uppercase,
    views, words,
};

pub use crate::text::esc;

verus! {

broadcast use vstd::string::group_string_axioms;

/// `x` fits in an `i64`.
pub open spec fn fits(x: int) -> bool {
    i64::MIN <= x <= i64::MAX
}

/// Rust's `/` on integers: the quotient rounded toward zero (for `b > 0`).
pub open spec fn tdiv(a: int, b: int) -> int {
    if a >= 0 {
        a / b
    } else {
        -((-a) / b)
    }
}

/// Rust's `%` on integers: the remainder with the sign of `a` (for `b > 0`).
pub open spec fn trem(a: int, b: int) -> int {
    a - b * tdiv(a, b)
}

/// The sum of the values.
pub open spec fn sum_i64(s: Seq<i64>) -> int
    decreases s.len(),
{
    if s.len() == 0 {
        0
    } else {
        sum_i64(s.drop_last()) + s.last()
    }
}

/// Every running total of `s` fits in an `i64`, so summing it never overflows.
pub open spec fn sums_fit(s: Seq<i64>) -> bool {
    forall|k: int| 0 <= k <= s.len() ==> fits(sum_i64(#[trigger] s.take(k)))
}

/// "1h 5m", "2h" or "45m" for a number of minutes (negative counts as 0).
pub open spec fn fmt_min_spec(min: int) -> Seq<char> {
    let m = max0(min);
    let h = m / 60;
    let r = m % 60;
    if h > 0 {
        if r > 0 {
            decimal(h) + "h "@ + decimal(r) + "m"@
        } else {
            decimal(h) + "h"@
        }
    } else {
        decimal(r) + "m"@
    }
}

pub fn fmt_min(min: i64) -> (out: String)
    ensures
        out@ == fmt_min_spec(min as int),
{
    let m: i64 = if min < 0 { 0 } else { min };
    let h: i64 = m / 60;
    let r: i64 = m % 60;
    if h > 0 {
        let mut s = i64_string(h);
        if r > 0 {
            s.append("h ");
            s.append(i64_string(r).as_str());
            s.append("m");
        } else {
            s.append("h");
        }
        s
    } else {
        let mut s = i64_string(r);
        s.append("m");
        s
    }
}

/// Sakamoto's month offsets.
pub open spec fn month_offset(i: int) -> int {
    if i == 0 { 0 }
    else if i == 1 { 3 }
    else if i == 2 { 2 }
    else if i == 3 { 5 }
    else if i == 4 { 0 }
    else if i == 5 { 3 }
    else if i == 6 { 5 }
    else if i == 7 { 1 }
    else if i == 8 { 4 }
    else if i == 9 { 6 }
    else if i == 10 { 2 }
    else { 4 }
}

fn month_offset_of(i: i64) -> (o: i64)
    requires
        0 <= i <= 11,
    ensures
        o == month_offset(i as int),
{
    if i == 0 { 0 }
    else if i == 1 { 3 }
    else if i == 2 { 2 }
    else if i == 3 { 5 }
    else if i == 4 { 0 }
    else if i == 5 { 3 }
    else if i == 6 { 5 }
    else if i == 7 { 1 }
    else if i == 8 { 4 }
    else if i == 9 { 6 }
    else if i == 10 { 2 }
    else { 4 }
}

/// The year Sakamoto's method counts from: January and February belong to the
/// year before.
pub open spec fn dow_year(y: int, m: int) -> int {
    if m < 3 { y - 1 } else { y }
}

pub open spec fn dow_sum(y: int, m: int, d: int) -> int {
    let y2 = dow_year(y, m);
    y2 + tdiv(y2, 4) - tdiv(y2, 100) + tdiv(y2, 400) + month_offset(clamp(m - 1, 0, 11)) + d
}

/// Day of the week by Sakamoto's method: 0 = Sunday .. 6 = Saturday.
pub open spec fn dow_spec(y: int, m: int, d: int) -> int {
    trem(trem(dow_sum(y, m, d), 7) + 7, 7)
}

/// Every intermediate value of the weekday computation fits in an `i64`.
pub open spec fn dow_fits(y: int, m: int, d: int) -> bool {
    let y2 = dow_year(y, m);
    &&& fits(m - 1)
    &&& fits(y2)
    &&& fits(y2 + tdiv(y2, 4))
    &&& fits(y2 + tdiv(y2, 4) - tdiv(y2, 100))
    &&& fits(y2 + tdiv(y2, 4) - tdiv(y2, 100) + tdiv(y2, 400))
    &&& fits(y2 + tdiv(y2, 4) - tdiv(y2, 100) + tdiv(y2, 400) + month_offset(clamp(m - 1, 0, 11)))
    &&& fits(dow_sum(y, m, d))
}

/// Sakamoto's algorithm: 0 = Sunday .. 6 = Saturday.
pub fn day_of_week(y: i64, m: i64, d: i64) -> (out: i64)
    requires
        dow_fits(y as int, m as int, d as int),
    ensures
        out == dow_spec(y as int, m as int, d as int),
        0 <= out < 7,
{
    let y2: i64 = if m < 3 { y - 1 } else { y };
    let idx = clamp_i64(m - 1, 0, 11);
    let s: i64 = y2 + y2 / 4 - y2 / 100 + y2 / 400 + month_offset_of(idx) + d;
    (s % 7 + 7) % 7
}

pub open spec fn weekday_long(i: int) -> Seq<char> {
    if i == 0 { "Sunday"@ }
    else if i == 1 { "Monday"@ }
    else if i == 2 { "Tuesday"@ }
    else if i == 3 { "Wednesday"@ }
    else if i == 4 { "Thursday"@ }
    else if i == 5 { "Friday"@ }
    else { "Saturday"@ }
}

fn weekday_long_of(i: i64) -> (s: &'static str)
    requires
        0 <= i < 7,
    ensures
        s@ == weekday_long(i as int),
{
    if i == 0 { "Sunday" }
    else if i == 1 { "Monday" }
    else if i == 2 { "Tuesday" }
    else if i == 3 { "Wednesday" }
    else if i == 4 { "Thursday" }
    else if i == 5 { "Friday" }
    else { "Saturday" }
}

pub open spec fn month_long(i: int) -> Seq<char> {
    if i == 0 { "January"@ }
    else if i == 1 { "February"@ }
    else if i == 2 { "March"@ }
    else if i == 3 { "April"@ }
    else if i == 4 { "May"@ }
    else if i == 5 { "June"@ }
    else if i == 6 { "July"@ }
    else if i == 7 { "August"@ }
    else if i == 8 { "September"@ }
    else if i == 9 { "October"@ }
    else if i == 10 { "November"@ }
    else { "December"@ }
}

fn month_long_of(i: i64) -> (s: &'static str)
    requires
        0 <= i <= 11,
    ensures
        s@ == month_long(i as int),
{
    if i == 0 { "January" }
    else if i == 1 { "February" }
    else if i == 2 { "March" }
    else if i == 3 { "April" }
    else if i == 4 { "May" }
    else if i == 5 { "June" }
    else if i == 6 { "July" }
    else if i == 7 { "August" }
    else if i == 8 { "September" }
    else if i == 9 { "October" }
    else if i == 10 { "November" }
    else { "December" }
}

/// The pieces that parse as integers, in order (`filter_map(|p| p.parse().ok())`).
pub open spec fn parsed_parts(pieces: Seq<Seq<char>>) -> Seq<i64>
    decreases pieces.len(),
{
    if pieces.len() == 0 {
        Seq::empty()
    } else {
        let rest = parsed_parts(pieces.drop_last());
        match parse_i64_spec(pieces.last()) {
            Some(v) => rest.push(v),
            None => rest,
        }
    }
}

/// The numbers of a `YYYY-MM-DD` date: its `-`-separated pieces that parse.
pub open spec fn date_parts(ymd: Seq<char>) -> Seq<i64> {
    parsed_parts(split_all(ymd, '-'))
}

/// The weekday of a three-number date can be computed without overflow.
pub open spec fn pretty_date_ok(ymd: Seq<char>) -> bool {
    let p = date_parts(ymd);
    p.len() == 3 ==> dow_fits(p[0] as int, p[1] as int, p[2] as int)
}

/// "Tuesday, June 30" for "2026-06-30"; the text itself when it is not three
/// numbers.
pub open spec fn pretty_date_spec(ymd: Seq<char>) -> Seq<char> {
    let p = date_parts(ymd);
    if p.len() != 3 {
        ymd
    } else {
        weekday_long(dow_spec(p[0] as int, p[1] as int, p[2] as int)) + ", "@ + month_long(
            clamp(p[1] - 1, 0, 11),
        ) + " "@ + decimal(p[2] as int)
    }
}

fn date_numbers(ymd: &Vec<char>) -> (out: Vec<i64>)
    ensures
        out@ == date_parts(ymd@),
{
    let mut parts: Vec<i64> = Vec::new();
    let mut cur: Vec<char> = Vec::new();
    let mut i: usize = 0;
    while i < ymd.len()
        invariant
            i <= ymd.len(),
            split_all(ymd@.take(i as int), '-').last() == cur@,
            parts@ == parsed_parts(split_all(ymd@.take(i as int), '-').drop_last()),
        decreases ymd.len() - i,
    {
        let c = ymd[i];
        let ghost w = split_all(ymd@.take(i as int), '-');
        proof {
            lemma_split_all_nonempty(ymd@.take(i as int), '-');
            assert(ymd@.take(i + 1).drop_last() =~= ymd@.take(i as int));
            assert(w.drop_last().push(w.last()) =~= w);
        }
        if c == '-' {
            match parse_i64(&cur) {
                Some(v) => parts.push(v),
                None => {},
            }
            cur = Vec::new();
            proof {
                assert(w.push(Seq::<char>::empty()).drop_last() =~= w);
                assert(cur@ =~= Seq::<char>::empty());
            }
        } else {
            cur.push(c);
            proof {
                assert(w.drop_last().push(w.last().push(c)).drop_last() =~= w.drop_last());
            }
        }
        i = i + 1;
    }
    proof {
        assert(ymd@.take(ymd@.len() as int) =~= ymd@);
        lemma_split_all_nonempty(ymd@, '-');
        let w = split_all(ymd@, '-');
        assert(w.drop_last().push(w.last()) =~= w);
    }
    match parse_i64(&cur) {
        Some(v) => parts.push(v),
        None => {},
    }
    parts
}

/// Turn "2026-06-30" into "Tuesday, June 30".
pub fn pretty_date(ymd: &str) -> (out: String)
    requires
        pretty_date_ok(ymd@),
    ensures
        out@ == pretty_date_spec(ymd@),
{
    let cs = chars_of(ymd);
    let parts = date_numbers(&cs);
    if parts.len() != 3 {
        return String::from_str(ymd);
    }
    let y = parts[0];
    let m = parts[1];
    let day = parts[2];
    let dow = day_of_week(y, m, day);
    let mon = month_long_of(clamp_i64(m - 1, 0, 11));
    let mut s = String::from_str(weekday_long_of(dow));
    s.append(", ");
    s.append(mon);
    s.append(" ");
    s.append(i64_string(day).as_str());
    s
}

/// The wording of a pause reason: a user note as written, an automatic
/// reason in words.
pub open spec fn pause_label_spec(reason: Seq<char>, auto: bool) -> Seq<char> {
    if !auto {
        reason
    } else if reason == "auto-idle"@ {
        "Went idle"@
    } else if reason == "auto-suspend"@ {
        "System asleep"@
    } else if reason == "day-rollover"@ {
        "Rolled to next day"@
    } else if reason == "reached-estimate"@ {
        "Reached estimate"@
    } else if reason == "rescheduled"@ {
        "Rescheduled"@
    } else if reason == "deleted"@ {
        "Deleted"@
    } else if reason == "break-start"@ {
        "Break started"@
    } else if reason == "break-end"@ {
        "Break ended"@
    } else if reason == "capped-suspend"@ {
        "Capped after suspend"@
    } else if reason == "capped-runaway"@ {
        "Capped runaway timer"@
    } else {
        reason
    }
}

pub fn pause_label(reason: &str, auto: bool) -> (out: String)
    ensures
        out@ == pause_label_spec(reason@, auto),
{
    if !auto {
        return String::from_str(reason);
    }
    if str_eq(reason, "auto-idle") {
        String::from_str("Went idle")
    } else if str_eq(reason, "auto-suspend") {
        String::from_str("System asleep")
    } else if str_eq(reason, "day-rollover") {
        String::from_str("Rolled to next day")
    } else if str_eq(reason, "reached-estimate") {
        String::from_str("Reached estimate")
    } else if str_eq(reason, "rescheduled") {
        String::from_str("Rescheduled")
    } else if str_eq(reason, "deleted") {
        String::from_str("Deleted")
    } else if str_eq(reason, "break-start") {
        String::from_str("Break started")
    } else if str_eq(reason, "break-end") {
        String::from_str("Break ended")
    } else if str_eq(reason, "capped-suspend") {
        String::from_str("Capped after suspend")
    } else if str_eq(reason, "capped-runaway") {
        String::from_str("Capped runaway timer")
    } else {
        String::from_str(reason)
    }
}

pub open spec fn pause_counts(ps: Seq<PauseStat>) -> Seq<i64> {
    Seq::new(ps.len(), |i: int| ps[i].count)
}

/// One pause kind in the summary: its label, with "×n" when it happened more
/// than once.
pub open spec fn pause_part(p: PauseStat) -> Seq<char> {
    let label = esc_seq(pause_label_spec(p.reason@, p.auto));
    if p.count > 1 {
        label + " ×"@ + decimal(p.count as int)
    } else {
        label
    }
}

pub open spec fn pause_parts(ps: Seq<PauseStat>) -> Seq<Seq<char>> {
    Seq::new(ps.len(), |i: int| pause_part(ps[i]))
}

/// "3 pauses · going for dinner, Reached estimate ×2", or nothing without pauses.
pub open spec fn pause_summary_spec(ps: Seq<PauseStat>) -> Option<Seq<char>> {
    if ps.len() == 0 {
        None
    } else {
        let total = sum_i64(pause_counts(ps));
        Some(
            decimal(total) + " "@ + (if total == 1 { "pause"@ } else { "pauses"@ }) + " · "@
                + join(pause_parts(ps), ", "@),
        )
    }
}

fn pause_part_of(p: &PauseStat) -> (out: String)
    ensures
        out@ == pause_part(*p),
{
    let label = pause_label(p.reason.as_str(), p.auto);
    let mut s = esc(label.as_str());
    if p.count > 1 {
        s.append(" ×");
        s.append(i64_string(p.count).as_str());
    }
    s
}

/// "3 pauses · going for dinner, reached estimate ×6" (in the order given).
pub fn pause_summary(pauses: &Vec<PauseStat>) -> (out: Option<String>)
    requires
        sums_fit(pause_counts(pauses@)),
    ensures
        match out {
            Some(s) => pause_summary_spec(pauses@) == Some(s@),
            None => pause_summary_spec(pauses@) is None,
        },
{
    if pauses.len() == 0 {
        return None;
    }
    let ghost counts = pause_counts(pauses@);
    let ghost parts = pause_parts(pauses@);
    let mut total: i64 = 0;
    let mut joined = String::new();
    let mut i: usize = 0;
    while i < pauses.len()
        invariant
            i <= pauses.len(),
            counts == pause_counts(pauses@),
            parts == pause_parts(pauses@),
            sums_fit(counts),
            total == sum_i64(counts.take(i as int)),
            joined@ == join(parts.take(i as int), ", "@),
        decreases pauses.len() - i,
    {
        proof {
            assert(counts.take(i + 1).drop_last() =~= counts.take(i as int));
            assert(fits(sum_i64(counts.take(i + 1))));
            assert(parts.take(i + 1).drop_last() =~= parts.take(i as int));
        }
        total = total + pauses[i].count;
        let part = pause_part_of(&pauses[i]);
        if i > 0 {
            joined.append(", ");
        } else {
            proof {
                assert(joined@ + part@ =~= part@);
            }
        }
        joined.append(part.as_str());
        i = i + 1;
    }
    proof {
        assert(counts.take(pauses.len() as int) =~= counts);
        assert(parts.take(pauses.len() as int) =~= parts);
    }
    let noun = if total == 1 { "pause" } else { "pauses" };
    let mut s = i64_string(total);
    s.append(" ");
    s.append(noun);
    s.append(" · ");
    s.append(joined.as_str());
    Some(s)
}

/// One KPI tile of the digest.
pub open spec fn kpi_spec(label: Seq<char>, value: Seq<char>, color: Seq<char>) -> Seq<char> {
    r#"<td width="25%" style="padding:8px 6px;" valign="top">
  <div style="background:#f7f7f9;border:1px solid #e6e6eb;border-radius:10px;padding:12px 10px;">
    <div style="font-size:10px;font-weight:700;letter-spacing:.06em;text-transform:uppercase;color:#86868b;">"#@ + esc_seq(label) + r#"</div>
    <div style="font-size:20px;font-weight:700;color:"#@ + color + r#";margin-top:4px;line-height:1;">"#@ + esc_seq(value) + r#"</div>
  </div>
</td>"#@
}

pub fn kpi(s: &mut String, label: &str, value: &str, color: &str)
    ensures
        final(s)@ == old(s)@ + kpi_spec(label@, value@, color@),
{
    let l = esc(label);
    let v = esc(value);
    let mut w = String::from_str(r#"<td width="25%" style="padding:8px 6px;" valign="top">
  <div style="background:#f7f7f9;border:1px solid #e6e6eb;border-radius:10px;padding:12px 10px;">
    <div style="font-size:10px;font-weight:700;letter-spacing:.06em;text-transform:uppercase;color:#86868b;">"#);
    w.append(l.as_str());
    w.append(r#"</div>
    <div style="font-size:20px;font-weight:700;color:"#);
    w.append(color);
    w.append(r#";margin-top:4px;line-height:1;">"#);
    w.append(v.as_str());
    w.append(r#"</div>
  </div>
</td>"#);
    s.append(w.as_str());
}

/// A section heading of the digest.
pub open spec fn section_title_spec(title: Seq<char>) -> Seq<char> {
    r#"<tr><td style="padding:18px 32px 8px 32px;"><div style="font-size:11px;font-weight:700;letter-spacing:.08em;text-transform:uppercase;color:#86868b;">"#@ + esc_seq(title) + r#"</div></td></tr>"#@
}

pub fn section_title(s: &mut String, title: &str)
    ensures
        final(s)@ == old(s)@ + section_title_spec(title@),
{
    let t = esc(title);
    let mut w = String::from_str(r#"<tr><td style="padding:18px 32px 8px 32px;"><div style="font-size:11px;font-weight:700;letter-spacing:.08em;text-transform:uppercase;color:#86868b;">"#);
    w.append(t.as_str());
    w.append(r#"</div></td></tr>"#);
    s.append(w.as_str());
}

/// How full a bar is, in percent of the largest row (at least 2).
pub open spec fn bar_fill(minutes: int, max: int) -> int {
    clamp(max0(minutes) * 100 / max, 2, 100)
}

/// A row's share of the total, rounded to the nearest percent.
pub open spec fn bar_pct(minutes: int, total: int) -> int {
    (max0(minutes) * 100 + total / 2) / total
}

/// The share of a row can be computed without overflow.
pub open spec fn bar_fits(minutes: int, total: int) -> bool {
    fits(max0(minutes) * 100 + total / 2)
}

/// One bar-chart row: a colored dot, the name, the bar, the time and the share.
pub open spec fn bar_row_spec(
    name: Seq<char>,
    color: Seq<char>,
    minutes: int,
    max: int,
    total: int,
    small_dot: bool,
) -> Seq<char> {
    r#"<tr>
  <td width="16" valign="middle" style="padding:5px 0;"><div style="width:"#@ + decimal(if small_dot { 8 } else { 10 }) + r#"px;height:"#@ + decimal(if small_dot { 8 } else { 10 }) + r#"px;border-radius:50%;background:"#@ + color + r#";"></div></td>
  <td valign="middle" style="padding:5px 8px;font-size:13px;color:#1d1d1f;">"#@ + esc_seq(name) + r#"</td>
  <td width="120" valign="middle" style="padding:5px 0;">
    <div style="background:#ececef;border-radius:4px;height:6px;width:100%;"><div style="background:"#@ + color + r#";height:6px;border-radius:4px;width:"#@ + decimal(bar_fill(minutes, max)) + r#"%;"></div></div>
  </td>
  <td width="52" align="right" valign="middle" style="padding:5px 0 5px 10px;font-size:12px;color:#86868b;font-variant-numeric:tabular-nums;">"#@ + esc_seq(fmt_min_spec(minutes)) + r#"</td>
  <td width="34" align="right" valign="middle" style="padding:5px 0 5px 6px;font-size:12px;color:#aeaeb2;font-variant-numeric:tabular-nums;">"#@ + decimal(bar_pct(minutes, total)) + r#"%</td>
</tr>"#@
}

pub fn bar_row(
    s: &mut String,
    name: &str,
    color: &str,
    minutes: i64,
    max: i64,
    total: i64,
    small_dot: bool,
)
    requires
        max >= 1,
        total >= 1,
        bar_fits(minutes as int, total as int),
    ensures
        final(s)@ == old(s)@ + bar_row_spec(
            name@,
            color@,
            minutes as int,
            max as int,
            total as int,
            small_dot,
        ),
{
    let m0: i64 = if minutes < 0 { 0 } else { minutes };
    let fill = clamp_i64(m0 * 100 / max, 2, 100);
    let pct: i64 = (m0 * 100 + total / 2) / total;
    let dot: i64 = if small_dot { 8 } else { 10 };
    let dot_s = i64_string(dot);
    let fill_s = i64_string(fill);
    let pct_s = i64_string(pct);
    let n = esc(name);
    let time_s = esc(fmt_min(minutes).as_str());
    let mut w = String::from_str(r#"<tr>
  <td width="16" valign="middle" style="padding:5px 0;"><div style="width:"#);
    w.append(dot_s.as_str());
    w.append(r#"px;height:"#);
    w.append(dot_s.as_str());
    w.append(r#"px;border-radius:50%;background:"#);
    w.append(color);
    w.append(r#";"></div></td>
  <td valign="middle" style="padding:5px 8px;font-size:13px;color:#1d1d1f;">"#);
    w.append(n.as_str());
    w.append(r#"</td>
  <td width="120" valign="middle" style="padding:5px 0;">
    <div style="background:#ececef;border-radius:4px;height:6px;width:100%;"><div style="background:"#);
    w.append(color);
    w.append(r#";height:6px;border-radius:4px;width:"#);
    w.append(fill_s.as_str());
    w.append(r#"%;"></div></div>
  </td>
  <td width="52" align="right" valign="middle" style="padding:5px 0 5px 10px;font-size:12px;color:#86868b;font-variant-numeric:tabular-nums;">"#);
    w.append(time_s.as_str());
    w.append(r#"</td>
  <td width="34" align="right" valign="middle" style="padding:5px 0 5px 6px;font-size:12px;color:#aeaeb2;font-variant-numeric:tabular-nums;">"#);
    w.append(pct_s.as_str());
    w.append(r#"%</td>
</tr>"#);
    s.append(w.as_str());
}

/// A category's dot color: its own, or the neutral gray when it has none.
pub open spec fn cat_color_spec(c: CategoryStat) -> Seq<char> {
    if trim(c.color@).len() == 0 {
        "#9aa0aa"@
    } else {
        trim(c.color@)
    }
}

pub fn cat_color(c: &CategoryStat) -> (out: String)
    ensures
        out@ == cat_color_spec(*c),
{
    let t = trimmed(&chars_of(c.color.as_str()));
    if t.len() == 0 {
        String::from_str("#9aa0aa")
    } else {
        string_of(&t)
    }
}

/// The focus share of the tracked and untracked time, rounded to the nearest
/// percent (0 when there was none).
pub open spec fn focus_pct_spec(focus: int, distraction: int) -> int {
    let t = focus + distraction;
    if t > 0 {
        tdiv(focus * 100 + t / 2, t)
    } else {
        0
    }
}

pub open spec fn focus_pct_fits(focus: int, distraction: int) -> bool {
    let t = focus + distraction;
    &&& fits(t)
    &&& t > 0 ==> fits(focus * 100) && fits(focus * 100 + t / 2)
}

fn focus_pct(focus: i64, distraction: i64) -> (p: i64)
    requires
        focus_pct_fits(focus as int, distraction as int),
    ensures
        p == focus_pct_spec(focus as int, distraction as int),
{
    let t: i64 = focus + distraction;
    if t > 0 {
        (focus * 100 + t / 2) / t
    } else {
        0
    }
}

/// The digest's header: preview text, title and date.
pub open spec fn head_spec(d: Dashboard) -> Seq<char> {
    r#"<!doctype html><html><head><meta charset="utf-8"><meta name="viewport" content="width=device-width,initial-scale=1"></head>
<body style="margin:0;padding:0;background:#f2f2f5;">
<div style="display:none;max-height:0;overflow:hidden;opacity:0;">Tracked "#@ + fmt_min_spec(d.total_tracked_min as int) + r#" · Focus "#@ + decimal(focus_pct_spec(d.focus_min as int, d.distraction_min as int)) + r#"% · Untracked "#@ + fmt_min_spec(d.distraction_min as int) + r#" · "#@ + decimal(d.completed as int) + r#"/"#@ + decimal(d.total_tasks as int) + r#" done</div>
<table role="presentation" width="100%" cellpadding="0" cellspacing="0" style="background:#f2f2f5;padding:24px 12px;">
<tr><td align="center">
<table role="presentation" width="600" cellpadding="0" cellspacing="0" style="max-width:600px;width:100%;background:#ffffff;border:1px solid #e6e6eb;border-radius:16px;overflow:hidden;font-family:-apple-system,BlinkMacSystemFont,'Segoe UI',Roboto,Helvetica,Arial,sans-serif;">
<tr><td style="padding:28px 32px 8px 32px;">
  <div style="font-size:11px;font-weight:700;letter-spacing:.12em;text-transform:uppercase;color:#18a89e;">Achieve · Daily summary</div>
  <div style="font-size:24px;font-weight:700;color:#1d1d1f;margin-top:6px;line-height:1.2;">"#@ + esc_seq(pretty_date_spec(d.start_date@)) + r#"</div>
  <div style="font-size:14px;color:#86868b;margin-top:4px;">Here's where your day went.</div>
</td></tr>
"#@
}

fn head(d: &Dashboard) -> (out: String)
    requires
        focus_pct_fits(d.focus_min as int, d.distraction_min as int),
        pretty_date_ok(d.start_date@),
    ensures
        out@ == head_spec(*d),
{
    let tracked_s = fmt_min(d.total_tracked_min);
    let untr_s = fmt_min(d.distraction_min);
    let pct_s = i64_string(focus_pct(d.focus_min, d.distraction_min));
    let done_s = i64_string(d.completed);
    let total_s = i64_string(d.total_tasks);
    let date_s = esc(pretty_date(d.start_date.as_str()).as_str());
    let mut w = String::from_str(r#"<!doctype html><html><head><meta charset="utf-8"><meta name="viewport" content="width=device-width,initial-scale=1"></head>
<body style="margin:0;padding:0;background:#f2f2f5;">
<div style="display:none;max-height:0;overflow:hidden;opacity:0;">Tracked "#);
    w.append(tracked_s.as_str());
    w.append(r#" · Focus "#);
    w.append(pct_s.as_str());
    w.append(r#"% · Untracked "#);
    w.append(untr_s.as_str());
    w.append(r#" · "#);
    w.append(done_s.as_str());
    w.append(r#"/"#);
    w.append(total_s.as_str());
    w.append(r#" done</div>
<table role="presentation" width="100%" cellpadding="0" cellspacing="0" style="background:#f2f2f5;padding:24px 12px;">
<tr><td align="center">
<table role="presentation" width="600" cellpadding="0" cellspacing="0" style="max-width:600px;width:100%;background:#ffffff;border:1px solid #e6e6eb;border-radius:16px;overflow:hidden;font-family:-apple-system,BlinkMacSystemFont,'Segoe UI',Roboto,Helvetica,Arial,sans-serif;">
<tr><td style="padding:28px 32px 8px 32px;">
  <div style="font-size:11px;font-weight:700;letter-spacing:.12em;text-transform:uppercase;color:#18a89e;">Achieve · Daily summary</div>
  <div style="font-size:24px;font-weight:700;color:#1d1d1f;margin-top:6px;line-height:1.2;">"#);
    w.append(date_s.as_str());
    w.append(r#"</div>
  <div style="font-size:14px;color:#86868b;margin-top:4px;">Here's where your day went.</div>
</td></tr>
"#);
    w
}

/// The four KPI tiles: tracked, focus share, untracked, done.
pub open spec fn kpis_spec(d: Dashboard) -> Seq<char> {
    r#"<tr><td style="padding:16px 24px 4px 24px;"><table role="presentation" width="100%" cellpadding="0" cellspacing="0"><tr>"#@ + kpi_spec("Tracked"@, fmt_min_spec(d.total_tracked_min as int), "#18a89e"@)
        + kpi_spec(
        "Focus"@,
        decimal(focus_pct_spec(d.focus_min as int, d.distraction_min as int)) + "%"@,
        "#1d1d1f"@,
    ) + kpi_spec("Untracked"@, fmt_min_spec(d.distraction_min as int), "#9aa0aa"@) + kpi_spec(
        "Done"@,
        decimal(d.completed as int) + "/"@ + decimal(d.total_tasks as int),
        "#1d1d1f"@,
    ) + "</tr></table></td></tr>"@
}

fn kpis(d: &Dashboard) -> (out: String)
    requires
        focus_pct_fits(d.focus_min as int, d.distraction_min as int),
    ensures
        out@ == kpis_spec(*d),
{
    let mut w = String::from_str(r#"<tr><td style="padding:16px 24px 4px 24px;"><table role="presentation" width="100%" cellpadding="0" cellspacing="0"><tr>"#);
    kpi(&mut w, "Tracked", fmt_min(d.total_tracked_min).as_str(), "#18a89e");
    let mut pct = i64_string(focus_pct(d.focus_min, d.distraction_min));
    pct.append("%");
    kpi(&mut w, "Focus", pct.as_str(), "#1d1d1f");
    kpi(&mut w, "Untracked", fmt_min(d.distraction_min).as_str(), "#9aa0aa");
    let mut done = i64_string(d.completed);
    done.append("/");
    done.append(i64_string(d.total_tasks).as_str());
    kpi(&mut w, "Done", done.as_str(), "#1d1d1f");
    w.append("</tr></table></td></tr>");
    w
}

/// The largest value of a non-empty sequence.
pub open spec fn seq_max(s: Seq<i64>) -> int
    decreases s.len(),
{
    if s.len() <= 1 {
        if s.len() == 1 { s[0] as int } else { 1 }
    } else {
        let m = seq_max(s.drop_last());
        if s.last() > m { s.last() as int } else { m }
    }
}

/// `iter().max().unwrap_or(1).max(1)`: the largest value, at least 1.
pub open spec fn max_of(s: Seq<i64>) -> int {
    if s.len() == 0 {
        1
    } else if seq_max(s) > 1 {
        seq_max(s)
    } else {
        1
    }
}

/// `iter().sum().max(1)`: the sum, at least 1.
pub open spec fn total_of(s: Seq<i64>) -> int {
    if sum_i64(s) > 1 { sum_i64(s) } else { 1 }
}

fn max_or_one(v: &Vec<i64>) -> (m: i64)
    ensures
        m == max_of(v@),
{
    if v.len() == 0 {
        return 1;
    }
    let mut m: i64 = v[0];
    let mut i: usize = 1;
    while i < v.len()
        invariant
            1 <= i <= v.len(),
            m == seq_max(v@.take(i as int)),
        decreases v.len() - i,
    {
        proof {
            assert(v@.take(i + 1).drop_last() =~= v@.take(i as int));
        }
        if v[i] > m {
            m = v[i];
        }
        i = i + 1;
    }
    proof {
        assert(v@.take(v.len() as int) =~= v@);
    }
    if m > 1 { m } else { 1 }
}

fn sum_or_one(v: &Vec<i64>) -> (t: i64)
    requires
        sums_fit(v@),
    ensures
        t == total_of(v@),
{
    let mut t: i64 = 0;
    let mut i: usize = 0;
    while i < v.len()
        invariant
            i <= v.len(),
            sums_fit(v@),
            t == sum_i64(v@.take(i as int)),
        decreases v.len() - i,
    {
        proof {
            assert(v@.take(i + 1).drop_last() =~= v@.take(i as int));
            assert(fits(sum_i64(v@.take(i + 1))));
        }
        t = t + v[i];
        i = i + 1;
    }
    proof {
        assert(v@.take(v.len() as int) =~= v@);
    }
    if t > 1 { t } else { 1 }
}

fn cat_minutes_of(cs: &Vec<CategoryStat>) -> (out: Vec<i64>)
    ensures
        out@ == cat_minutes(cs@),
{
    let mut out: Vec<i64> = Vec::new();
    let mut i: usize = 0;
    while i < cs.len()
        invariant
            i <= cs.len(),
            out@ == cat_minutes(cs@).take(i as int),
        decreases cs.len() - i,
    {
        out.push(cs[i].minutes);
        proof {
            assert(out@ =~= cat_minutes(cs@).take(i + 1));
        }
        i = i + 1;
    }
    proof {
        assert(cat_minutes(cs@).take(cs.len() as int) =~= cat_minutes(cs@));
    }
    out
}

fn app_minutes_of(cs: &Vec<AppStat>) -> (out: Vec<i64>)
    ensures
        out@ == app_minutes(cs@),
{
    let mut out: Vec<i64> = Vec::new();
    let mut i: usize = 0;
    while i < cs.len()
        invariant
            i <= cs.len(),
            out@ == app_minutes(cs@).take(i as int),
        decreases cs.len() - i,
    {
        out.push(cs[i].minutes);
        proof {
            assert(out@ =~= app_minutes(cs@).take(i + 1));
        }
        i = i + 1;
    }
    proof {
        assert(app_minutes(cs@).take(cs.len() as int) =~= app_minutes(cs@));
    }
    out
}

/// The bar rows of the categories.
pub open spec fn cat_rows(cs: Seq<CategoryStat>, max: int, total: int) -> Seq<char>
    decreases cs.len(),
{
    if cs.len() == 0 {
        Seq::empty()
    } else {
        cat_rows(cs.drop_last(), max, total) + bar_row_spec(
            cs.last().name@,
            cat_color_spec(cs.last()),
            cs.last().minutes as int,
            max,
            total,
            false,
        )
    }
}

/// "Where your time went": one bar per category, when there are any.
pub open spec fn cats_section_spec(d: Dashboard) -> Seq<char> {
    let cs = d.by_category@;
    if cs.len() == 0 {
        Seq::empty()
    } else {
        section_title_spec("Where your time went"@) + r#"<tr><td style="padding:0 32px 8px 32px;"><table role="presentation" width="100%" cellpadding="0" cellspacing="0">"#@ + cat_rows(
            cs,
            max_of(cat_minutes(cs)),
            total_of(cat_minutes(cs)),
        ) + "</table></td></tr>"@
    }
}

pub open spec fn cats_ok(d: Dashboard) -> bool {
    let m = cat_minutes(d.by_category@);
    &&& sums_fit(m)
    &&& forall|i: int|
        0 <= i < m.len() ==> bar_fits(#[trigger] m[i] as int, total_of(m))
}

fn categories_section(d: &Dashboard) -> (out: String)
    requires
        cats_ok(*d),
    ensures
        out@ == cats_section_spec(*d),
{
    let cs = &d.by_category;
    if cs.len() == 0 {
        return String::new();
    }
    let mins = cat_minutes_of(cs);
    let max = max_or_one(&mins);
    let total = sum_or_one(&mins);
    let mut w = String::new();
    section_title(&mut w, "Where your time went");
    w.append(r#"<tr><td style="padding:0 32px 8px 32px;"><table role="presentation" width="100%" cellpadding="0" cellspacing="0">"#);
    let ghost base = section_title_spec("Where your time went"@) + r#"<tr><td style="padding:0 32px 8px 32px;"><table role="presentation" width="100%" cellpadding="0" cellspacing="0">"#@;
    proof {
        assert(w@ =~= base);
    }
    let mut i: usize = 0;
    while i < cs.len()
        invariant
            i <= cs.len(),
            cs == &d.by_category,
            mins@ == cat_minutes(cs@),
            cats_ok(*d),
            max == max_of(mins@),
            total == total_of(mins@),
            w@ == base + cat_rows(cs@.take(i as int), max as int, total as int),
        decreases cs.len() - i,
    {
        let c = &cs[i];
        let col = cat_color(c);
        proof {
            assert(mins@[i as int] == c.minutes);
            assert(bar_fits(mins@[i as int] as int, total_of(mins@)));
            assert(cs@.take(i + 1).drop_last() =~= cs@.take(i as int));
        }
        let ghost pre = w@;
        bar_row(&mut w, c.name.as_str(), col.as_str(), c.minutes, max, total, false);
        proof {
            assert(w@ =~= base + cat_rows(cs@.take(i + 1), max as int, total as int));
        }
        i = i + 1;
    }
    proof {
        assert(cs@.take(cs.len() as int) =~= cs@);
    }
    w.append("</table></td></tr>");
    w
}

/// The bar rows of the applications.
pub open spec fn app_rows(apps: Seq<AppStat>, max: int, total: int) -> Seq<char>
    decreases apps.len(),
{
    if apps.len() == 0 {
        Seq::empty()
    } else {
        app_rows(apps.drop_last(), max, total) + bar_row_spec(
            app_name_spec(apps.last().app@),
            "#18a89e"@,
            apps.last().minutes as int,
            max,
            total,
            true,
        )
    }
}

/// The number of applications shown: at most eight.
pub open spec fn shown_apps(n: int) -> int {
    if n < 8 { n } else { 8 }
}

/// "Applications": the first eight apps, scaled against all of them.
pub open spec fn apps_section_spec(d: Dashboard) -> Seq<char> {
    let apps = d.by_app@;
    if apps.len() == 0 {
        Seq::empty()
    } else {
        section_title_spec("Applications"@) + r#"<tr><td style="padding:0 32px 8px 32px;"><table role="presentation" width="100%" cellpadding="0" cellspacing="0">"#@ + app_rows(
            apps.take(shown_apps(apps.len() as int)),
            max_of(app_minutes(apps)),
            total_of(app_minutes(apps)),
        ) + "</table></td></tr>"@
    }
}

pub open spec fn apps_ok(d: Dashboard) -> bool {
    let m = app_minutes(d.by_app@);
    &&& sums_fit(m)
    &&& forall|i: int|
        0 <= i < shown_apps(m.len() as int) ==> bar_fits(#[trigger] m[i] as int, total_of(m))
}

fn apps_section(d: &Dashboard) -> (out: String)
    requires
        apps_ok(*d),
    ensures
        out@ == apps_section_spec(*d),
{
    let apps = &d.by_app;
    if apps.len() == 0 {
        return String::new();
    }
    let mins = app_minutes_of(apps);
    let max = max_or_one(&mins);
    let total = sum_or_one(&mins);
    let n: usize = if apps.len() < 8 { apps.len() } else { 8 };
    let mut w = String::new();
    section_title(&mut w, "Applications");
    w.append(r#"<tr><td style="padding:0 32px 8px 32px;"><table role="presentation" width="100%" cellpadding="0" cellspacing="0">"#);
    let ghost base = section_title_spec("Applications"@) + r#"<tr><td style="padding:0 32px 8px 32px;"><table role="presentation" width="100%" cellpadding="0" cellspacing="0">"#@;
    let ghost shown = apps@.take(n as int);
    proof {
        assert(w@ =~= base);
    }
    let mut i: usize = 0;
    while i < n
        invariant
            i <= n,
            n == shown_apps(apps@.len() as int),
            apps == &d.by_app,
            shown == apps@.take(n as int),
            mins@ == app_minutes(apps@),
            apps_ok(*d),
            max == max_of(mins@),
            total == total_of(mins@),
            w@ == base + app_rows(shown.take(i as int), max as int, total as int),
        decreases n - i,
    {
        let a = &apps[i];
        let name = app_name(a.app.as_str());
        proof {
            assert(mins@[i as int] == a.minutes);
            assert(bar_fits(mins@[i as int] as int, total_of(mins@)));
            assert(shown.take(i + 1).drop_last() =~= shown.take(i as int));
            assert(shown.take(i + 1).last() == apps@[i as int]);
        }
        bar_row(&mut w, name.as_str(), "#18a89e", a.minutes, max, total, true);
        proof {
            assert(w@ =~= base + app_rows(shown.take(i + 1), max as int, total as int));
        }
        i = i + 1;
    }
    proof {
        assert(shown.take(n as int) =~= shown);
    }
    w.append("</table></td></tr>");
    w
}

/// A task is listed when it is a real task with tracked time.
pub open spec fn is_real(p: PlannedActual) -> bool {
    !p.untracked && p.tracked_min > 0
}

pub open spec fn real_tasks(ps: Seq<PlannedActual>) -> Seq<PlannedActual>
    decreases ps.len(),
{
    if ps.len() == 0 {
        Seq::empty()
    } else {
        let r = real_tasks(ps.drop_last());
        if is_real(ps.last()) { r.push(ps.last()) } else { r }
    }
}

pub open spec fn task_blocks(ps: Seq<PlannedActual>) -> Seq<char>
    decreases ps.len(),
{
    if ps.len() == 0 {
        Seq::empty()
    } else {
        task_blocks(ps.drop_last()) + task_block_spec(ps.last())
    }
}

/// "Tasks": one card per real task with tracked time, when there are any.
pub open spec fn tasks_section_spec(d: Dashboard) -> Seq<char> {
    let r = real_tasks(d.planned_actual@);
    if r.len() == 0 {
        Seq::empty()
    } else {
        section_title_spec("Tasks"@) + r#"<tr><td style="padding:0 32px 4px 32px;">"#@ + task_blocks(r) + "</td></tr>"@
    }
}

pub open spec fn tasks_ok(d: Dashboard) -> bool {
    forall|i: int|
        0 <= i < d.planned_actual@.len() && is_real(#[trigger] d.planned_actual@[i]) ==> sums_fit(
            pause_counts(d.planned_actual@[i].pauses@),
        )
}

fn tasks_section(d: &Dashboard) -> (out: String)
    requires
        tasks_ok(*d),
    ensures
        out@ == tasks_section_spec(*d),
{
    let ps = &d.planned_actual;
    let mut blocks = String::new();
    let mut count: usize = 0;
    let mut i: usize = 0;
    while i < ps.len()
        invariant
            i <= ps.len(),
            ps == &d.planned_actual,
            tasks_ok(*d),
            count == real_tasks(ps@.take(i as int)).len(),
            count <= i,
            blocks@ == task_blocks(real_tasks(ps@.take(i as int))),
        decreases ps.len() - i,
    {
        let p = &ps[i];
        let ghost r = real_tasks(ps@.take(i as int));
        proof {
            assert(ps@.take(i + 1).drop_last() =~= ps@.take(i as int));
            assert(ps@.take(i + 1).last() == ps@[i as int]);
        }
        if !p.untracked && p.tracked_min > 0 {
            proof {
                assert(is_real(ps@[i as int]));
                assert(r.push(*p).drop_last() =~= r);
            }
            task_block(&mut blocks, p);
            count = count + 1;
        }
        i = i + 1;
    }
    proof {
        assert(ps@.take(ps.len() as int) =~= ps@);
    }
    if count == 0 {
        return String::new();
    }
    let mut w = String::new();
    section_title(&mut w, "Tasks");
    proof {
        assert(w@ =~= section_title_spec("Tasks"@));
    }
    w.append(r#"<tr><td style="padding:0 32px 4px 32px;">"#);
    w.append(blocks.as_str());
    w.append("</td></tr>");
    w
}

/// The closing footer of the digest.
pub open spec fn footer_spec() -> Seq<char> {
    r#"<tr><td style="padding:20px 32px 28px 32px;border-top:1px solid #e6e6eb;">
  <div style="font-size:12px;color:#aeaeb2;">Sent by Achieve, your proactive day-companion. Totals are final for the full day.</div>
</td></tr>
</table></td></tr></table></body></html>"#@
}

/// The whole digest for a day's dashboard.
pub open spec fn render_spec(d: Dashboard) -> Seq<char> {
    head_spec(d) + kpis_spec(d) + cats_section_spec(d) + tasks_section_spec(d) + apps_section_spec(d)
        + footer_spec()
}

/// The digest's Untracked tile shows the day's untracked minutes, the same
/// figure as the preview line, whatever the away minutes.
pub proof fn law_untracked_tile_is_untracked_minutes(d: Dashboard)
    ensures
        ({
            let untracked = d.distraction_min as int;
            exists|pre: Seq<char>, post: Seq<char>|
                render_spec(d) == pre + kpi_spec("Untracked"@, fmt_min_spec(untracked), "#9aa0aa"@) + post
        }),
        forall|x: i64| #[trigger] kpis_spec(Dashboard { away_min: x, ..d }) == kpis_spec(d),
{
    lemma_untracked_tile_in_kpis(d);
    let untracked = d.distraction_min as int;
    let u = kpi_spec("Untracked"@, fmt_min_spec(untracked), "#9aa0aa"@);
    let (k1, k2) = choose|k1: Seq<char>, k2: Seq<char>| kpis_spec(d) == k1 + u + k2;
    let h = head_spec(d);
    let c = cats_section_spec(d);
    let t = tasks_section_spec(d);
    let ap = apps_section_spec(d);
    let ft = footer_spec();
    lemma_regroup(h, k1, u, k2, c, t, ap, ft);
    assert(render_spec(d) == (h + k1) + u + (k2 + c + t + ap + ft));
    assert forall|x: i64| #[trigger] kpis_spec(Dashboard { away_min: x, ..d }) == kpis_spec(d) by {
        lemma_kpis_ignore_away(d, x);
    }
}

proof fn lemma_regroup(
    h: Seq<char>,
    k1: Seq<char>,
    u: Seq<char>,
    k2: Seq<char>,
    c: Seq<char>,
    t: Seq<char>,
    ap: Seq<char>,
    ft: Seq<char>,
)
    ensures
        h + (k1 + u + k2) + c + t + ap + ft == (h + k1) + u + (k2 + c + t + ap + ft),
{
    assert(h + (k1 + u + k2) + c + t + ap + ft =~= (h + k1) + u + (k2 + c + t + ap + ft));
}

proof fn lemma_untracked_tile_in_kpis(d: Dashboard)
    ensures
        ({
            let untracked = d.distraction_min as int;
            exists|k1: Seq<char>, k2: Seq<char>|
                kpis_spec(d) == k1 + kpi_spec("Untracked"@, fmt_min_spec(untracked), "#9aa0aa"@) + k2
        }),
{
    let t = kpi_spec("Tracked"@, fmt_min_spec(d.total_tracked_min as int), "#18a89e"@);
    let f = kpi_spec("Focus"@, decimal(focus_pct_spec(d.focus_min as int, d.distraction_min as int)) + "%"@, "#1d1d1f"@);
    let untracked = d.distraction_min as int;
    let u = kpi_spec("Untracked"@, fmt_min_spec(untracked), "#9aa0aa"@);
    let dn = kpi_spec("Done"@, decimal(d.completed as int) + "/"@ + decimal(d.total_tasks as int), "#1d1d1f"@);
    let open_row = r#"<tr><td style="padding:16px 24px 4px 24px;"><table role="presentation" width="100%" cellpadding="0" cellspacing="0"><tr>"#@;
    let close_row = "</tr></table></td></tr>"@;
    assert(kpis_spec(d) == open_row + t + f + u + dn + close_row);
    assert(open_row + t + f + u + dn + close_row =~= (open_row + t + f) + u + (dn + close_row));
}

proof fn lemma_kpis_ignore_away(d: Dashboard, x: i64)
    ensures
        kpis_spec(Dashboard { away_min: x, ..d }) == kpis_spec(d),
{
    let d2 = Dashboard { away_min: x, ..d };
    assert(d2.total_tracked_min == d.total_tracked_min && d2.focus_min == d.focus_min
        && d2.distraction_min == d.distraction_min && d2.completed == d.completed
        && d2.total_tasks == d.total_tasks);
}

/// The digest can be rendered without arithmetic overflow.
pub open spec fn render_ok(d: Dashboard) -> bool {
    &&& focus_pct_fits(d.focus_min as int, d.distraction_min as int)
    &&& pretty_date_ok(d.start_date@)
    &&& cats_ok(d)
    &&& tasks_ok(d)
    &&& apps_ok(d)
}

/// Render a day's dashboard as the HTML digest.
pub fn render_html(d: &Dashboard) -> (out: String)
    requires
        render_ok(*d),
    ensures
        out@ == render_spec(*d),
{
    let mut s = head(d);
    s.append(kpis(d).as_str());
    s.append(categories_section(d).as_str());
    s.append(tasks_section(d).as_str());
    s.append(apps_section(d).as_str());
    s.append(r#"<tr><td style="padding:20px 32px 28px 32px;border-top:1px solid #e6e6eb;">
  <div style="font-size:12px;color:#aeaeb2;">Sent by Achieve, your proactive day-companion. Totals are final for the full day.</div>
</td></tr>
</table></td></tr></table></body></html>"#);
    s
}

/// " of ~2h" when the task has an estimate.
pub open spec fn est_spec(e: int) -> Seq<char> {
    if e > 0 {
        " of ~"@ + fmt_min_spec(e)
    } else {
        Seq::empty()
    }
}

pub open spec fn cat_badge_present_spec(p: PlannedActual) -> bool {
    trim(p.category@).len() > 0
}

/// The task has a category to show as a badge.
pub fn cat_badge_present(p: &PlannedActual) -> (b: bool)
    ensures
        b == cat_badge_present_spec(*p),
{
    trimmed(&chars_of(p.category.as_str())).len() > 0
}

/// The badge color: the category's own, or the neutral gray.
pub open spec fn badge_color(p: PlannedActual) -> Seq<char> {
    if trim(p.color@).len() == 0 {
        "#9aa0aa"@
    } else {
        trim(p.color@)
    }
}

pub open spec fn cat_badge_spec(p: PlannedActual) -> Seq<char> {
    if cat_badge_present_spec(p) {
        r#"<span style="display:inline-block;font-size:10px;font-weight:700;color:"#@ + badge_color(p) + r#";background:#f4f4f6;border:1px solid "#@ + badge_color(p) + r#";border-radius:999px;padding:2px 8px;">"#@ + esc_seq(p.category@) + r#"</span>"#@
    } else {
        Seq::empty()
    }
}

pub open spec fn done_badge_spec(done: bool) -> Seq<char> {
    if done {
        r#"<span style="display:inline-block;font-size:10px;font-weight:700;color:#1f9d55;background:#e8f7ee;border-radius:999px;padding:2px 7px;margin-left:6px;">DONE</span>"#@
    } else {
        Seq::empty()
    }
}

/// The task card's title line and its category/time line.
pub open spec fn task_head_spec(p: PlannedActual) -> Seq<char> {
    r#"<div style="border:1px solid #e6e6eb;border-radius:12px;padding:12px 14px;margin:8px 0;">
  <div style="font-size:14px;font-weight:600;color:#1d1d1f;line-height:1.3;">"#@ + esc_seq(p.title@) + done_badge_spec(p.done) + r#"</div>
  <div style="margin-top:6px;font-size:12px;color:#86868b;">"#@ + cat_badge_spec(p) + r#"<span style="margin-left:"#@ + (if cat_badge_present_spec(p) { "8px"@ } else { "0"@ }) + r#"">"#@ + esc_seq(fmt_min_spec(p.tracked_min as int)) + r#" tracked"#@ + esc_seq(est_spec(p.estimate_min as int)) + r#"</span></div>"#@
}

/// One app on a task card: "Firefox 25m".
pub open spec fn app_item(a: AppStat) -> Seq<char> {
    esc_seq(app_name_spec(a.app@)) + " "@ + esc_seq(fmt_min_spec(a.minutes as int))
}

/// The first four apps of a task, as card items.
pub open spec fn app_items(apps: Seq<AppStat>) -> Seq<Seq<char>> {
    let n = if apps.len() < 4 { apps.len() as int } else { 4 };
    Seq::new(n as nat, |i: int| app_item(apps[i]))
}

pub open spec fn apps_line_spec(apps: Seq<AppStat>) -> Seq<char> {
    if apps.len() == 0 {
        Seq::empty()
    } else {
        r#"<div style="margin-top:8px;font-size:12px;color:#86868b;"><span style="color:#aeaeb2;">Apps:</span> "#@ + join(app_items(apps), " &nbsp;·&nbsp; "@) + r#"</div>"#@
    }
}

pub open spec fn pauses_line_spec(ps: Seq<PauseStat>) -> Seq<char> {
    match pause_summary_spec(ps) {
        Some(s) => r#"<div style="margin-top:6px;font-size:12px;color:#86868b;"><span style="color:#aeaeb2;">Pauses:</span> "#@ + s + r#"</div>"#@,
        None => Seq::empty(),
    }
}

/// A task card: title, badges, time, apps and pauses.
pub open spec fn task_block_spec(p: PlannedActual) -> Seq<char> {
    task_head_spec(p) + apps_line_spec(p.apps@) + pauses_line_spec(p.pauses@) + "</div>"@
}

fn task_head(p: &PlannedActual) -> (out: String)
    ensures
        out@ == task_head_spec(*p),
{
    let title_s = esc(p.title.as_str());
    let done_s = if p.done {
        String::from_str(r#"<span style="display:inline-block;font-size:10px;font-weight:700;color:#1f9d55;background:#e8f7ee;border-radius:999px;padding:2px 7px;margin-left:6px;">DONE</span>"#)
    } else {
        String::new()
    };
    let present = cat_badge_present(p);
    let cat_s = if present {
        let tc = trimmed(&chars_of(p.color.as_str()));
        let c = if tc.len() == 0 {
            String::from_str("#9aa0aa")
        } else {
            string_of(&tc)
        };
        let n = esc(p.category.as_str());
        let mut w = String::from_str(r#"<span style="display:inline-block;font-size:10px;font-weight:700;color:"#);
        w.append(c.as_str());
        w.append(r#";background:#f4f4f6;border:1px solid "#);
        w.append(c.as_str());
        w.append(r#";border-radius:999px;padding:2px 8px;">"#);
        w.append(n.as_str());
        w.append(r#"</span>"#);
        w
    } else {
        String::new()
    };
    let catsp = if present { "8px" } else { "0" };
    let time_s = esc(fmt_min(p.tracked_min).as_str());
    let est = if p.estimate_min > 0 {
        let mut e = String::from_str(" of ~");
        e.append(fmt_min(p.estimate_min).as_str());
        e
    } else {
        String::new()
    };
    let est_s = esc(est.as_str());
    let mut w = String::from_str(r#"<div style="border:1px solid #e6e6eb;border-radius:12px;padding:12px 14px;margin:8px 0;">
  <div style="font-size:14px;font-weight:600;color:#1d1d1f;line-height:1.3;">"#);
    w.append(title_s.as_str());
    w.append(done_s.as_str());
    w.append(r#"</div>
  <div style="margin-top:6px;font-size:12px;color:#86868b;">"#);
    w.append(cat_s.as_str());
    w.append(r#"<span style="margin-left:"#);
    w.append(catsp);
    w.append(r#"">"#);
    w.append(time_s.as_str());
    w.append(r#" tracked"#);
    w.append(est_s.as_str());
    w.append(r#"</span></div>"#);
    w
}

fn apps_line(apps: &Vec<AppStat>) -> (out: String)
    ensures
        out@ == apps_line_spec(apps@),
{
    if apps.len() == 0 {
        return String::new();
    }
    let n: usize = if apps.len() < 4 { apps.len() } else { 4 };
    let ghost items = app_items(apps@);
    let mut joined = String::new();
    let mut i: usize = 0;
    while i < n
        invariant
            i <= n,
            n == items.len(),
            items == app_items(apps@),
            joined@ == join(items.take(i as int), " &nbsp;·&nbsp; "@),
        decreases n - i,
    {
        let a = &apps[i];
        let mut item = esc(app_name(a.app.as_str()).as_str());
        item.append(" ");
        item.append(esc(fmt_min(a.minutes).as_str()).as_str());
        proof {
            assert(items.take(i + 1).drop_last() =~= items.take(i as int));
            assert(items[i as int] == app_item(apps@[i as int]));
        }
        if i > 0 {
            joined.append(" &nbsp;·&nbsp; ");
        } else {
            proof {
                assert(joined@ + item@ =~= item@);
            }
        }
        joined.append(item.as_str());
        i = i + 1;
    }
    proof {
        assert(items.take(n as int) =~= items);
    }
    let mut w = String::from_str(r#"<div style="margin-top:8px;font-size:12px;color:#86868b;"><span style="color:#aeaeb2;">Apps:</span> "#);
    w.append(joined.as_str());
    w.append(r#"</div>"#);
    w
}

fn pauses_line(ps: &Vec<PauseStat>) -> (out: String)
    requires
        sums_fit(pause_counts(ps@)),
    ensures
        out@ == pauses_line_spec(ps@),
{
    match pause_summary(ps) {
        Some(sm) => {
            let mut w = String::from_str(r#"<div style="margin-top:6px;font-size:12px;color:#86868b;"><span style="color:#aeaeb2;">Pauses:</span> "#);
            w.append(sm.as_str());
            w.append(r#"</div>"#);
            w
        },
        None => String::new(),
    }
}

/// Append a task card to the digest.
pub fn task_block(s: &mut String, p: &PlannedActual)
    requires
        sums_fit(pause_counts(p.pauses@)),
    ensures
        final(s)@ == old(s)@ + task_block_spec(*p),
{
    let mut w = task_head(p);
    w.append(apps_line(&p.apps).as_str());
    w.append(pauses_line(&p.pauses).as_str());
    w.append("</div>");
    s.append(w.as_str());
}

/// The display name of a well-known app, by its lowercased id.
pub open spec fn known_app_spec(lower: Seq<char>) -> Option<Seq<char>> {
    if lower == "firefox"@ || lower == "org.mozilla.firefox"@ || lower == "firefox-esr"@ {
        Some("Firefox"@)
    } else if lower == "zen"@ {
        Some("Zen Browser"@)
    } else if lower == "google-chrome"@ || lower == "google-chrome-stable"@ {
        Some("Chrome"@)
    } else if lower == "chromium"@ {
        Some("Chromium"@)
    } else if lower == "brave-browser"@ {
        Some("Brave"@)
    } else if lower == "code"@ || lower == "code-oss"@ || lower == "code-url-handler"@ {
        Some("VS Code"@)
    } else if lower == "cursor"@ {
        Some("Cursor"@)
    } else if lower == "kitty"@ {
        Some("Kitty"@)
    } else if lower == "alacritty"@ {
        Some("Alacritty"@)
    } else if lower == "foot"@ {
        Some("Foot"@)
    } else if lower == "ghostty"@ || lower == "com.mitchellh.ghostty"@ {
        Some("Ghostty"@)
    } else if lower == "slack"@ || lower == "com.slack.slack"@ {
        Some("Slack"@)
    } else if lower == "discord"@ {
        Some("Discord"@)
    } else if lower == "spotify"@ {
        Some("Spotify"@)
    } else if lower == "obsidian"@ || lower == "md.obsidian.obsidian"@ {
        Some("Obsidian"@)
    } else if lower == "zoom"@ {
        Some("Zoom"@)
    } else if lower == "thunderbird"@ {
        Some("Thunderbird"@)
    } else {
        None
    }
}

/// The display name of a well-known app, by its lowercased id.
pub fn known_app(lower: &str) -> (out: Option<&'static str>)
    ensures
        match out {
            Some(n) => known_app_spec(lower@) == Some(n@),
            None => known_app_spec(lower@) is None,
        },
{
    if str_eq(lower, "firefox") || str_eq(lower, "org.mozilla.firefox") || str_eq(lower, "firefox-esr") {
        Some("Firefox")
    } else if str_eq(lower, "zen") {
        Some("Zen Browser")
    } else if str_eq(lower, "google-chrome") || str_eq(lower, "google-chrome-stable") {
        Some("Chrome")
    } else if str_eq(lower, "chromium") {
        Some("Chromium")
    } else if str_eq(lower, "brave-browser") {
        Some("Brave")
    } else if str_eq(lower, "code") || str_eq(lower, "code-oss") || str_eq(lower, "code-url-handler") {
        Some("VS Code")
    } else if str_eq(lower, "cursor") {
        Some("Cursor")
    } else if str_eq(lower, "kitty") {
        Some("Kitty")
    } else if str_eq(lower, "alacritty") {
        Some("Alacritty")
    } else if str_eq(lower, "foot") {
        Some("Foot")
    } else if str_eq(lower, "ghostty") || str_eq(lower, "com.mitchellh.ghostty") {
        Some("Ghostty")
    } else if str_eq(lower, "slack") || str_eq(lower, "com.slack.slack") {
        Some("Slack")
    } else if str_eq(lower, "discord") {
        Some("Discord")
    } else if str_eq(lower, "spotify") {
        Some("Spotify")
    } else if str_eq(lower, "obsidian") || str_eq(lower, "md.obsidian.obsidian") {
        Some("Obsidian")
    } else if str_eq(lower, "zoom") {
        Some("Zoom")
    } else if str_eq(lower, "thunderbird") {
        Some("Thunderbird")
    } else {
        None
    }
}

/// A word with its first character uppercased.
pub open spec fn capitalized(w: Seq<char>) -> Seq<char> {
    if w.len() == 0 {
        Seq::empty()
    } else {
        uppercase(w[0]) + w.drop_first()
    }
}

/// An app id made readable: the part after the last '.', dashes and
/// underscores as spaces, each word capitalized.
pub open spec fn title_words_spec(key: Seq<char>) -> Seq<char> {
    let ws = words(dashes_to_spaces(after_last(key, '.')));
    join(Seq::new(ws.len(), |i: int| capitalized(ws[i])), " "@)
}

/// A friendly name for an app id: the well-known name, or the id made readable.
pub open spec fn app_name_spec(app_id: Seq<char>) -> Seq<char> {
    let key = trim(app_id);
    match known_app_spec(lowercase(key)) {
        Some(n) => n,
        None => title_words_spec(key),
    }
}

fn capitalize(w: &Vec<char>) -> (out: String)
    ensures
        out@ == capitalized(w@),
{
    if w.len() == 0 {
        return String::new();
    }
    let mut s = char_uppercase(w[0]);
    let mut rest: Vec<char> = Vec::new();
    let mut i: usize = 1;
    while i < w.len()
        invariant
            1 <= i <= w.len(),
            rest@ == w@.subrange(1, i as int),
        decreases w.len() - i,
    {
        rest.push(w[i]);
        proof {
            assert(rest@ =~= w@.subrange(1, i + 1));
        }
        i = i + 1;
    }
    proof {
        assert(w@.subrange(1, w.len() as int) =~= w@.drop_first());
    }
    s.append(string_of(&rest).as_str());
    s
}

/// An app id made readable (see `title_words_spec`).
pub fn title_words(key: &Vec<char>) -> (out: String)
    ensures
        out@ == title_words_spec(key@),
{
    let last = tail_after(key, '.');
    let cleaned = replace_dashes(&last);
    let ws = split_words(&cleaned);
    let ghost caps = Seq::new(words(cleaned@).len(), |i: int| capitalized(words(cleaned@)[i]));
    let mut out = String::new();
    let mut i: usize = 0;
    while i < ws.len()
        invariant
            i <= ws.len(),
            views(ws@) == words(cleaned@),
            caps == Seq::new(words(cleaned@).len(), |i: int| capitalized(words(cleaned@)[i])),
            out@ == join(caps.take(i as int), " "@),
        decreases ws.len() - i,
    {
        let c = capitalize(&ws[i]);
        proof {
            assert(caps.take(i + 1).drop_last() =~= caps.take(i as int));
            assert(views(ws@)[i as int] == ws@[i as int]@);
            assert(caps[i as int] == c@);
        }
        if i > 0 {
            out.append(" ");
        } else {
            proof {
                assert(out@ + c@ =~= c@);
            }
        }
        out.append(c.as_str());
        i = i + 1;
    }
    proof {
        assert(caps.take(ws.len() as int) =~= caps);
    }
    out
}

/// A friendly name for an app id ("org.mozilla.firefox" -> "Firefox",
/// "my-tool" -> "My Tool").
pub fn app_name(app_id: &str) -> (out: String)
    ensures
        out@ == app_name_spec(app_id@),
{
    let key = trimmed(&chars_of(app_id));
    let key_s = string_of(&key);
    let lower = to_lowercase(key_s.as_str());
    match known_app(lower.as_str()) {
        Some(n) => String::from_str(n),
        None => title_words(&key),
    }
}

/// Everything needed to send one email.
pub struct Payload {
    pub api_key: String,
    pub from: String,
    pub from_name: String,
    pub reply_to: String,
    pub to: String,
    pub subject: String,
    pub html: String,
}

/// The stored settings the daily summary reads (`None` when unset).
pub struct EmailSettings {
    /// `brevo_api_key`
    pub api_key: Option<String>,
    /// `email_from`
    pub from: Option<String>,
    /// `email_from_name`
    pub from_name: Option<String>,
    /// `email_reply_to`
    pub reply_to: Option<String>,
    /// `email_to`
    pub to: Option<String>,
    /// `email_hour`
    pub hour: Option<String>,
    /// `email_offset`
    pub offset: Option<String>,
    /// `email_enabled`
    pub enabled: Option<String>,
    /// `email_last_sent`
    pub last_sent: Option<String>,
}

/// The environment variables the settings are seeded from (`None` when unset):
/// `BREVO_API_KEY`, `EMAIL_FROM`, `EMAIL_FROM_NAME`, `EMAIL_REPLY_TO`,
/// `EMAIL_TO`, `EMAIL_HOUR`.
pub struct EmailEnv {
    pub api_key: Option<String>,
    pub from: Option<String>,
    pub from_name: Option<String>,
    pub reply_to: Option<String>,
    pub to: Option<String>,
    pub hour: Option<String>,
}

pub open spec fn ostr(o: Option<String>) -> Option<Seq<char>> {
    match o {
        Some(s) => Some(s@),
        None => None,
    }
}

/// A setting holds something other than whitespace.
pub open spec fn has_text(o: Option<Seq<char>>) -> bool {
    match o {
        Some(s) => trim(s).len() > 0,
        None => false,
    }
}

pub fn is_set(v: &Option<String>) -> (b: bool)
    ensures
        b == has_text(ostr(*v)),
{
    match v {
        Some(s) => trimmed(&chars_of(s.as_str())).len() > 0,
        None => false,
    }
}

/// A setting after seeding: the trimmed environment value when it has text,
/// else what was stored.
pub open spec fn seeded(stored: Option<Seq<char>>, env: Option<Seq<char>>) -> Option<Seq<char>> {
    match env {
        Some(e) => if trim(e).len() > 0 { Some(trim(e)) } else { stored },
        None => stored,
    }
}

/// Seeding again from the same environment changes nothing: a setting seeded
/// once stays as it is.
pub proof fn law_seed_is_idempotent(stored: Option<Seq<char>>, env: Option<Seq<char>>)
    ensures
        seeded(seeded(stored, env), env) == seeded(stored, env),
{
}

fn seed_value(stored: Option<String>, env: &Option<String>) -> (out: Option<String>)
    ensures
        ostr(out) == seeded(ostr(stored), ostr(*env)),
{
    match env {
        Some(e) => {
            let t = trimmed(&chars_of(e.as_str()));
            if t.len() > 0 {
                Some(string_of(&t))
            } else {
                stored
            }
        },
        None => stored,
    }
}

/// Seed the settings from the environment: each variable that is set to more
/// than whitespace is stored trimmed; then the send hour defaults to 8 and the
/// day offset to 1; and once a key and a recipient exist the summary is
/// switched on, unless it was set either way before.
pub fn seed_from_env(cfg: EmailSettings, env: &EmailEnv) -> (out: EmailSettings)
    ensures
        ostr(out.api_key) == seeded(ostr(cfg.api_key), ostr(env.api_key)),
        ostr(out.from) == seeded(ostr(cfg.from), ostr(env.from)),
        ostr(out.from_name) == seeded(ostr(cfg.from_name), ostr(env.from_name)),
        ostr(out.reply_to) == seeded(ostr(cfg.reply_to), ostr(env.reply_to)),
        ostr(out.to) == seeded(ostr(cfg.to), ostr(env.to)),
        ostr(out.hour) == match seeded(ostr(cfg.hour), ostr(env.hour)) {
            Some(h) => Some(h),
            None => Some("8"@),
        },
        ostr(out.offset) == match ostr(cfg.offset) {
            Some(o) => Some(o),
            None => Some("1"@),
        },
        ostr(out.enabled) == if cfg.enabled is None && has_text(ostr(out.api_key)) && has_text(
            ostr(out.to),
        ) {
            Some("1"@)
        } else {
            ostr(cfg.enabled)
        },
        ostr(out.last_sent) == ostr(cfg.last_sent),
{
    let EmailSettings { api_key, from, from_name, reply_to, to, hour, offset, enabled, last_sent } =
        cfg;
    let api_key = seed_value(api_key, &env.api_key);
    let from = seed_value(from, &env.from);
    let from_name = seed_value(from_name, &env.from_name);
    let reply_to = seed_value(reply_to, &env.reply_to);
    let to = seed_value(to, &env.to);
    let hour = match seed_value(hour, &env.hour) {
        Some(h) => Some(h),
        None => Some(String::from_str("8")),
    };
    let offset = match offset {
        Some(o) => Some(o),
        None => Some(String::from_str("1")),
    };
    let configured = is_set(&api_key) && is_set(&to);
    let enabled = match enabled {
        Some(e) => Some(e),
        None => if configured {
            Some(String::from_str("1"))
        } else {
            None
        },
    };
    EmailSettings { api_key, from, from_name, reply_to, to, hour, offset, enabled, last_sent }
}

fn opt_str(o: &Option<String>) -> (out: Option<&str>)
    ensures
        opt_view(out) == ostr(*o),
{
    match o {
        Some(s) => Some(s.as_str()),
        None => None,
    }
}

/// The summary is due: switched on, configured, past the send hour (unless
/// that is ignored), and not yet sent today.
pub open spec fn due_spec(cfg: EmailSettings, ignore_hour: bool, hour_now: int, today: Seq<char>) -> bool {
    &&& ostr(cfg.enabled) == Some("1"@)
    &&& has_text(ostr(cfg.api_key))
    &&& has_text(ostr(cfg.to))
    &&& (ignore_hour || hour_now >= setting_int(ostr(cfg.hour), 8))
    &&& ostr(cfg.last_sent) != Some(today)
}

/// Is a daily summary due right now? The scheduled path waits until the
/// configured hour; the startup catch-up path (`ignore_hour`) does not.
pub fn is_due(cfg: &EmailSettings, ignore_hour: bool, hour_now: i64, today: &str) -> (out: bool)
    ensures
        out == due_spec(*cfg, ignore_hour, hour_now as int, today@),
{
    let enabled = match &cfg.enabled {
        Some(e) => str_eq(e.as_str(), "1"),
        None => false,
    };
    if !enabled {
        return false;
    }
    if !is_set(&cfg.api_key) || !is_set(&cfg.to) {
        return false;
    }
    if !ignore_hour {
        let hour = setting_i64(opt_str(&cfg.hour), 8);
        if hour_now < hour {
            return false;
        }
    }
    match &cfg.last_sent {
        Some(l) => !str_eq(l.as_str(), today),
        None => true,
    }
}

/// Once today's summary is marked sent, it is not due again that day, on
/// either path.
pub proof fn law_sent_today_is_not_due(cfg: EmailSettings, ignore_hour: bool, hour_now: int, today: Seq<char>)
    requires
        ostr(cfg.last_sent) == Some(today),
    ensures
        !due_spec(cfg, ignore_hour, hour_now, today),
{
}

/// Scheduled daily send: due only once the configured hour has passed.
pub fn should_send(cfg: &EmailSettings, hour_now: i64, today: &str) -> (out: bool)
    ensures
        out == due_spec(*cfg, false, hour_now as int, today@),
{
    is_due(cfg, false, hour_now, today)
}

/// Startup catch-up: due on launch regardless of the hour.
pub fn should_send_on_start(cfg: &EmailSettings, today: &str) -> (out: bool)
    ensures
        out == due_spec(*cfg, true, 0, today@),
{
    is_due(cfg, true, 0, today)
}

/// The day the scheduled summary covers, as an offset back from today
/// (default 1 = yesterday).
pub fn due_offset(cfg: &EmailSettings) -> (out: i64)
    ensures
        out == setting_int(ostr(cfg.offset), 1),
{
    setting_i64(opt_str(&cfg.offset), 1)
}

/// The payload built from the settings and a day's dashboard.
pub open spec fn payload_spec(p: Payload, cfg: EmailSettings, d: Dashboard) -> bool {
    let from = match ostr(cfg.from) {
        Some(f) => f,
        None => "easyboard@hamidslab.com"@,
    };
    &&& Some(p.api_key@) == ostr(cfg.api_key)
    &&& Some(p.to@) == ostr(cfg.to)
    &&& p.from@ == from
    &&& p.from_name@ == match ostr(cfg.from_name) {
        Some(n) => n,
        None => "Easyboard"@,
    }
    &&& p.reply_to@ == match ostr(cfg.reply_to) {
        Some(r) => r,
        None => from,
    }
    &&& p.subject@ == "Your day · "@ + pretty_date_spec(d.start_date@)
    &&& p.html@ == render_spec(d)
}

/// The sender identity for other emails (reminders): from, from name,
/// reply-to and recipient, with the same defaults as the summary; nothing
/// without a recipient.
pub fn identity(cfg: &EmailSettings) -> (out: Option<(String, String, String, String)>)
    ensures
        out is Some <==> has_text(ostr(cfg.to)),
        match out {
            Some((from, from_name, reply_to, to)) => {
                let f = match ostr(cfg.from) {
                    Some(x) => x,
                    None => "easyboard@hamidslab.com"@,
                };
                &&& from@ == f
                &&& from_name@ == match ostr(cfg.from_name) {
                    Some(n) => n,
                    None => "Easyboard"@,
                }
                &&& reply_to@ == match ostr(cfg.reply_to) {
                    Some(r) => r,
                    None => f,
                }
                &&& Some(to@) == ostr(cfg.to)
            },
            None => true,
        },
{
    let to = match &cfg.to {
        Some(t) => if is_set(&cfg.to) {
            t.clone()
        } else {
            return None;
        },
        None => return None,
    };
    let from = match &cfg.from {
        Some(f) => f.clone(),
        None => String::from_str("easyboard@hamidslab.com"),
    };
    let from_name = match &cfg.from_name {
        Some(n) => n.clone(),
        None => String::from_str("Easyboard"),
    };
    let reply_to = match &cfg.reply_to {
        Some(r) => r.clone(),
        None => from.clone(),
    };
    Some((from, from_name, reply_to, to))
}

/// Build the payload for one day's summary. Without an API key or a recipient
/// it fails with the matching message; a failed dashboard query fails with its
/// error.
pub fn build_payload(cfg: &EmailSettings, dash: Result<Dashboard, String>) -> (out: Result<Payload, String>)
    requires
        match dash {
            Ok(d) => render_ok(d),
            Err(_) => true,
        },
    ensures
        out is Ok <==> (has_text(ostr(cfg.api_key)) && has_text(ostr(cfg.to)) && dash is Ok),
        match out {
            Ok(p) => payload_spec(p, *cfg, dash->Ok_0),
            Err(e) => if !has_text(ostr(cfg.api_key)) {
                e@ == "no Brevo API key configured"@
            } else if !has_text(ostr(cfg.to)) {
                e@ == "no recipient configured"@
            } else {
                dash == Err::<Dashboard, String>(e)
            },
        },
{
    let api_key = match &cfg.api_key {
        Some(k) => if is_set(&cfg.api_key) {
            k.clone()
        } else {
            return Err(String::from_str("no Brevo API key configured"));
        },
        None => return Err(String::from_str("no Brevo API key configured")),
    };
    let to = match &cfg.to {
        Some(t) => if is_set(&cfg.to) {
            t.clone()
        } else {
            return Err(String::from_str("no recipient configured"));
        },
        None => return Err(String::from_str("no recipient configured")),
    };
    let from = match &cfg.from {
        Some(f) => f.clone(),
        None => String::from_str("easyboard@hamidslab.com"),
    };
    let from_name = match &cfg.from_name {
        Some(n) => n.clone(),
        None => String::from_str("Easyboard"),
    };
    let reply_to = match &cfg.reply_to {
        Some(r) => r.clone(),
        None => from.clone(),
    };
    let d = match dash {
        Ok(d) => d,
        Err(e) => return Err(e),
    };
    let mut subject = String::from_str("Your day · ");
    subject.append(pretty_date(d.start_date.as_str()).as_str());
    let html = render_html(&d);
    Ok(Payload { api_key, from, from_name, reply_to, to, subject, html })
}

/// The scheduled summary's payload, or nothing when it cannot be built.
pub fn build_due_payload(cfg: &EmailSettings, dash: Result<Dashboard, String>) -> (out: Option<Payload>)
    requires
        match dash {
            Ok(d) => render_ok(d),
            Err(_) => true,
        },
    ensures
        out is Some <==> (has_text(ostr(cfg.api_key)) && has_text(ostr(cfg.to)) && dash is Ok),
        match out {
            Some(p) => payload_spec(p, *cfg, dash->Ok_0),
            None => true,
        },
{
    match build_payload(cfg, dash) {
        Ok(p) => Some(p),
        Err(_) => None,
    }
}

fn sums_fit_check(v: &Vec<i64>) -> (b: bool)
    ensures
        b == sums_fit(v@),
{
    let mut acc: i64 = 0;
    let mut i: usize = 0;
    proof {
        assert(v@.take(0) =~= Seq::<i64>::empty());
    }
    while i < v.len()
        invariant
            i <= v.len(),
            acc == sum_i64(v@.take(i as int)),
            forall|k: int| 0 <= k <= i ==> fits(sum_i64(#[trigger] v@.take(k))),
        decreases v.len() - i,
    {
        proof {
            assert(v@.take(i + 1).drop_last() =~= v@.take(i as int));
        }
        match acc.checked_add(v[i]) {
            Some(x) => {
                acc = x;
            },
            None => {
                proof {
                    assert(!fits(sum_i64(v@.take(i + 1))));
                }
                return false;
            },
        }
        proof {
            assert forall|k: int| 0 <= k <= i + 1 implies fits(sum_i64(#[trigger] v@.take(k))) by {
                if k == i + 1 {
                } else {
                }
            }
        }
        i = i + 1;
    }
    proof {
        assert(v@.take(v.len() as int) =~= v@);
        assert forall|k: int| 0 <= k <= v@.len() implies fits(sum_i64(#[trigger] v@.take(k))) by {
        }
    }
    true
}

fn bar_fits_check(minutes: i64, total: i64) -> (b: bool)
    requires
        total >= 1,
    ensures
        b == bar_fits(minutes as int, total as int),
{
    let m0: i64 = if minutes < 0 { 0 } else { minutes };
    match m0.checked_mul(100) {
        Some(x) => x.checked_add(total / 2).is_some(),
        None => false,
    }
}

fn focus_check(focus: i64, distraction: i64) -> (b: bool)
    ensures
        b == focus_pct_fits(focus as int, distraction as int),
{
    match focus.checked_add(distraction) {
        None => false,
        Some(t) => if t > 0 {
            match focus.checked_mul(100) {
                Some(x) => x.checked_add(t / 2).is_some(),
                None => false,
            }
        } else {
            true
        },
    }
}

fn dow_check(y: i64, m: i64, d: i64) -> (b: bool)
    ensures
        b == dow_fits(y as int, m as int, d as int),
{
    let m1 = match m.checked_sub(1) {
        Some(x) => x,
        None => return false,
    };
    let y2 = if m < 3 {
        match y.checked_sub(1) {
            Some(x) => x,
            None => return false,
        }
    } else {
        y
    };
    let a1 = match y2.checked_add(y2 / 4) {
        Some(x) => x,
        None => return false,
    };
    let a2 = match a1.checked_sub(y2 / 100) {
        Some(x) => x,
        None => return false,
    };
    let a3 = match a2.checked_add(y2 / 400) {
        Some(x) => x,
        None => return false,
    };
    let a4 = match a3.checked_add(month_offset_of(clamp_i64(m1, 0, 11))) {
        Some(x) => x,
        None => return false,
    };
    a4.checked_add(d).is_some()
}

/// The date's weekday can be computed without overflow.
pub fn pretty_date_fits(ymd: &str) -> (b: bool)
    ensures
        b == pretty_date_ok(ymd@),
{
    let parts = date_numbers(&chars_of(ymd));
    if parts.len() != 3 {
        return true;
    }
    dow_check(parts[0], parts[1], parts[2])
}

/// The digest for this dashboard can be rendered without overflow (the
/// condition `render_html` asks of its input).
pub fn render_fits(d: &Dashboard) -> (b: bool)
    ensures
        b == render_ok(*d),
{
    if !focus_check(d.focus_min, d.distraction_min) || !pretty_date_fits(d.start_date.as_str()) {
        return false;
    }
    let cm = cat_minutes_of(&d.by_category);
    if !sums_fit_check(&cm) {
        return false;
    }
    let ct = sum_or_one(&cm);
    let mut i: usize = 0;
    while i < cm.len()
        invariant
            i <= cm.len(),
            cm@ == cat_minutes(d.by_category@),
            sums_fit(cm@),
            ct == total_of(cm@),
            forall|k: int| 0 <= k < i ==> bar_fits(#[trigger] cm@[k] as int, total_of(cm@)),
        decreases cm.len() - i,
    {
        if !bar_fits_check(cm[i], ct) {
            return false;
        }
        i = i + 1;
    }
    let am = app_minutes_of(&d.by_app);
    if !sums_fit_check(&am) {
        return false;
    }
    let at = sum_or_one(&am);
    let n: usize = if am.len() < 8 { am.len() } else { 8 };
    let mut j: usize = 0;
    while j < n
        invariant
            j <= n,
            n == shown_apps(am@.len() as int),
            am@ == app_minutes(d.by_app@),
            sums_fit(am@),
            at == total_of(am@),
            forall|k: int| 0 <= k < j ==> bar_fits(#[trigger] am@[k] as int, total_of(am@)),
        decreases n - j,
    {
        if !bar_fits_check(am[j], at) {
            return false;
        }
        j = j + 1;
    }
    let ps = &d.planned_actual;
    let mut t: usize = 0;
    while t < ps.len()
        invariant
            t <= ps.len(),
            ps == &d.planned_actual,
            forall|k: int|
                0 <= k < t && is_real(#[trigger] ps@[k]) ==> sums_fit(pause_counts(ps@[k].pauses@)),
        decreases ps.len() - t,
    {
        let p = &ps[t];
        if !p.untracked && p.tracked_min > 0 {
            let mut counts: Vec<i64> = Vec::new();
            let mut q: usize = 0;
            while q < p.pauses.len()
                invariant
                    q <= p.pauses.len(),
                    counts@ == pause_counts(p.pauses@).take(q as int),
                decreases p.pauses.len() - q,
            {
                counts.push(p.pauses[q].count);
                proof {
                    assert(counts@ =~= pause_counts(p.pauses@).take(q + 1));
                }
                q = q + 1;
            }
            proof {
                assert(pause_counts(p.pauses@).take(p.pauses.len() as int) =~= pause_counts(p.pauses@));
            }
            if !sums_fit_check(&counts) {
                return false;
            }
        }
        t = t + 1;
    }
    true
}




} // verus!
