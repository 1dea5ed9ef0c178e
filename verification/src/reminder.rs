//! Task reminders: what a dispatch pass does with each reminder, and the
//! reminder email and notification texts.

use vstd::prelude::*;

use crate::email::{day_of_week, dow_fits, dow_spec, month_offset, ostr, tdiv};
use crate::ledger::{clamp, weekday_name, weekday_short};
use crate::ledger::unwrap_or;
use crate::text::{
    after_first, before_first, chars_lt, chars_of, decimal, esc_seq, has_prefix, i64_string,
    nth_item, parse_i64, parse_i64_spec, parse_int, parse_u32, parse_u32_spec, seq_lt, split_nth, split_once,
    starts_with, str_eq, string_of, trim, trimmed,
};

pub use crate::text::esc;

verus! {

broadcast use vstd::string::group_string_axioms;

/// A reminder with everything a dispatch pass needs about it and its task.
#[derive(Debug, Clone)]
pub struct ReminderJob {
    pub id: i64,
    pub task_id: i64,
    pub task_title: String,
    pub task_status: String,
    pub task_recurrence: Option<String>,
    pub category_name: Option<String>,
    pub category_color: Option<String>,
    pub plan_date: Option<String>,
    pub remind_at: String,
    pub remind_at_local: String,
    pub rrule: Option<String>,
    pub rrule_until: Option<String>,
    pub rrule_count: Option<i64>,
    pub channel: String,
    pub note: Option<String>,
    pub status: String,
    pub message_id: Option<String>,
}

/// What one dispatch pass does with a reminder.
#[derive(Debug, Clone, Copy, PartialEq, Eq, Structural)]
pub enum ReminderAction {
    /// Cancelled: cancel its worker schedule (if it holds one) and clear it.
    TearDown,
    /// Its task went away: cancel the worker schedule (if any) and the reminder.
    CancelGone,
    /// Nothing to do this pass.
    Wait,
    /// A scheduled reminder came due (the worker sent the email): notify when
    /// wanted, then advance or complete it.
    Delivered { notify: bool },
    /// Due now: email when wanted and a recipient exists, notify when wanted,
    /// then advance or complete it unless the email failed.
    FireNow { email: bool, notify: bool },
    /// Ahead of time: hand the email to the worker with its scheduled time.
    Schedule,
}

/// `a <= b` for strings.
pub open spec fn str_le(a: Seq<char>, b: Seq<char>) -> bool {
    !seq_lt(b, a)
}

/// The reminder's task is gone: deleted, or a completed task that does not
/// recur daily.
pub open spec fn task_gone_spec(job: ReminderJob) -> bool {
    job.task_status@ == "deleted"@ || (job.task_status@ == "completed"@ && ostr(job.task_recurrence)
        != Some("daily"@))
}

pub open spec fn wants_email_spec(job: ReminderJob) -> bool {
    job.channel@ != "notification"@
}

pub open spec fn wants_notif_spec(job: ReminderJob) -> bool {
    job.channel@ != "email"@
}

/// The decision for one reminder, given whether a recipient is configured and
/// the current time and the time two minutes ahead (both UTC
/// "YYYY-MM-DD HH:MM:SS", compared as text).
pub open spec fn plan_spec(job: ReminderJob, has_ident: bool, now: Seq<char>, soon: Seq<char>) -> ReminderAction {
    let overdue = str_le(job.remind_at@, now);
    let due_soon = str_le(job.remind_at@, soon);
    if job.status@ == "cancelled"@ {
        ReminderAction::TearDown
    } else if task_gone_spec(job) {
        ReminderAction::CancelGone
    } else if job.status@ == "scheduled"@ {
        if !overdue {
            ReminderAction::Wait
        } else {
            ReminderAction::Delivered { notify: wants_notif_spec(job) }
        }
    } else if due_soon {
        ReminderAction::FireNow {
            email: wants_email_spec(job) && has_ident,
            notify: wants_notif_spec(job),
        }
    } else if wants_email_spec(job) && has_ident {
        ReminderAction::Schedule
    } else {
        ReminderAction::Wait
    }
}

/// A reminder notifies on the desktop exactly when its channel is not "email",
/// and emails only when its channel is not "notification" and a recipient is
/// configured, whatever the decision of the pass.
pub proof fn law_channel_decides_delivery(job: ReminderJob, has_ident: bool, now: Seq<char>, soon: Seq<char>)
    ensures
        match plan_spec(job, has_ident, now, soon) {
            ReminderAction::FireNow { email, notify } => notify == (job.channel@ != "email"@) && email == (
            job.channel@ != "notification"@ && has_ident),
            ReminderAction::Delivered { notify } => notify == (job.channel@ != "email"@),
            ReminderAction::Schedule => job.channel@ != "notification"@ && has_ident,
            _ => true,
        },
{
}

fn str_le_exec(a: &str, b: &str) -> (out: bool)
    ensures
        out == str_le(a@, b@),
{
    !chars_lt(&chars_of(b), &chars_of(a))
}

/// The reminder wants an email.
pub fn wants_email(job: &ReminderJob) -> (out: bool)
    ensures
        out == wants_email_spec(*job),
{
    !str_eq(job.channel.as_str(), "notification")
}

/// Decide what a dispatch pass does with one reminder: tear down a cancelled
/// one, cancel one whose task is gone, advance a scheduled one that came due,
/// fire one due within two minutes, schedule one further ahead on the worker.
pub fn process(job: &ReminderJob, has_ident: bool, now: &str, soon: &str) -> (out: ReminderAction)
    ensures
        out == plan_spec(*job, has_ident, now@, soon@),
        match out {
            ReminderAction::FireNow { notify, .. } => notify == (job.channel@ != "email"@),
            ReminderAction::Delivered { notify } => notify == (job.channel@ != "email"@),
            _ => true,
        },
{
    if str_eq(job.status.as_str(), "cancelled") {
        return ReminderAction::TearDown;
    }
    let daily = match &job.task_recurrence {
        Some(r) => str_eq(r.as_str(), "daily"),
        None => false,
    };
    let task_gone = str_eq(job.task_status.as_str(), "deleted") || (str_eq(
        job.task_status.as_str(),
        "completed",
    ) && !daily);
    if task_gone {
        return ReminderAction::CancelGone;
    }
    let wants_email = wants_email(job);
    let wants_notif = !str_eq(job.channel.as_str(), "email");
    let overdue = str_le_exec(job.remind_at.as_str(), now);
    let due_soon = str_le_exec(job.remind_at.as_str(), soon);
    if str_eq(job.status.as_str(), "scheduled") {
        if !overdue {
            return ReminderAction::Wait;
        }
        return ReminderAction::Delivered { notify: wants_notif };
    }
    if due_soon {
        return ReminderAction::FireNow { email: wants_email && has_ident, notify: wants_notif };
    }
    if wants_email && has_ident {
        ReminderAction::Schedule
    } else {
        ReminderAction::Wait
    }
}

/// The recurrence rule to advance by, when the reminder has a non-empty one.
pub open spec fn advance_rule_spec(job: ReminderJob) -> Option<Seq<char>> {
    match ostr(job.rrule) {
        Some(r) => if r.len() > 0 { Some(r) } else { None },
        None => None,
    }
}

/// After a reminder fired: the rule to compute its next slot from, or `None`
/// when it is a one-shot to mark sent.
pub fn advance_rule(job: &ReminderJob) -> (out: Option<&str>)
    ensures
        match out {
            Some(r) => advance_rule_spec(*job) == Some(r@),
            None => advance_rule_spec(*job) is None,
        },
{
    match &job.rrule {
        Some(r) => if chars_of(r.as_str()).len() > 0 {
            Some(r.as_str())
        } else {
            None
        },
        None => None,
    }
}

/// The reminder's note, trimmed, when it has one.
pub open spec fn note_text(job: ReminderJob) -> Option<Seq<char>> {
    match ostr(job.note) {
        Some(n) => if trim(n).len() > 0 { Some(trim(n)) } else { None },
        None => None,
    }
}

fn note_of(job: &ReminderJob) -> (out: Option<String>)
    ensures
        ostr(out) == note_text(*job),
{
    match &job.note {
        Some(n) => {
            let t = trimmed(&chars_of(n.as_str()));
            if t.len() > 0 {
                Some(string_of(&t))
            } else {
                None
            }
        },
        None => None,
    }
}

/// The desktop notification for a reminder: "⏰ " and the task title, with the
/// note (or "Reminder") as its body.
pub fn fire_notification(job: &ReminderJob) -> (out: (String, String))
    ensures
        out.0@ == "⏰ "@ + job.task_title@,
        out.1@ == match note_text(*job) {
            Some(n) => n,
            None => "Reminder"@,
        },
{
    let body = match note_of(job) {
        Some(n) => n,
        None => String::from_str("Reminder"),
    };
    let mut title = String::from_str("⏰ ");
    title.append(job.task_title.as_str());
    (title, body)
}

pub open spec fn unit_word(unit: Seq<char>, n: int) -> Seq<char> {
    if unit == "days"@ {
        if n == 1 { "day"@ } else { "days"@ }
    } else if unit == "weeks"@ {
        if n == 1 { "week"@ } else { "weeks"@ }
    } else if unit == "months"@ {
        if n == 1 { "month"@ } else { "months"@ }
    } else {
        unit
    }
}

/// The count of an "every:N:unit" rule (1 when missing or unparsable).
pub open spec fn every_count(r: Seq<char>) -> int {
    match split_nth(r, ':', 1) {
        Some(v) => unwrap_or(parse_i64_spec(v), 1),
        None => 1,
    }
}

/// The unit of an "every:N:unit" rule ("days" when missing).
pub open spec fn every_unit(r: Seq<char>) -> Seq<char> {
    match split_nth(r, ':', 2) {
        Some(u) => u,
        None => "days"@,
    }
}

/// A human phrase for a stored recurrence rule; nothing for a one-shot.
pub open spec fn summarize_spec(rrule: Option<Seq<char>>) -> Option<Seq<char>> {
    match rrule {
        None => None,
        Some(r) => if r.len() == 0 {
            None
        } else if r == "daily"@ {
            Some("every day"@)
        } else if r == "weekdays"@ {
            Some("every weekday"@)
        } else if r == "weekly"@ {
            Some("every week"@)
        } else if r == "biweekly"@ {
            Some("every 2 weeks"@)
        } else if r == "monthly"@ {
            Some("every month"@)
        } else if r == "yearly"@ {
            Some("every year"@)
        } else if has_prefix(r, "every:"@) {
            let n = every_count(r);
            let u = unit_word(every_unit(r), n);
            if n == 1 {
                Some("every "@ + u)
            } else {
                Some("every "@ + decimal(n) + " "@ + u)
            }
        } else {
            Some(r)
        },
    }
}

/// Human phrase for a stored rrule, or None for one-shot.
pub fn summarize_rrule(rrule: Option<&str>) -> (out: Option<String>)
    ensures
        ostr(out) == summarize_spec(match rrule {
            Some(r) => Some(r@),
            None => None,
        }),
{
    let r = match rrule {
        Some(r) => r,
        None => return None,
    };
    if chars_of(r).len() == 0 {
        return None;
    }
    let s = if str_eq(r, "daily") {
        String::from_str("every day")
    } else if str_eq(r, "weekdays") {
        String::from_str("every weekday")
    } else if str_eq(r, "weekly") {
        String::from_str("every week")
    } else if str_eq(r, "biweekly") {
        String::from_str("every 2 weeks")
    } else if str_eq(r, "monthly") {
        String::from_str("every month")
    } else if str_eq(r, "yearly") {
        String::from_str("every year")
    } else {
        let rc = chars_of(r);
        if starts_with(&rc, &chars_of("every:")) {
            let n: i64 = match nth_item(&rc, ':', 1) {
                Some(v) => match parse_i64(&v) {
                    Some(x) => x,
                    None => 1,
                },
                None => 1,
            };
            let unit = match nth_item(&rc, ':', 2) {
                Some(u) => string_of(&u),
                None => String::from_str("days"),
            };
            let u = unit.as_str();
            let unit_s = if str_eq(u, "days") {
                if n == 1 { String::from_str("day") } else { String::from_str("days") }
            } else if str_eq(u, "weeks") {
                if n == 1 { String::from_str("week") } else { String::from_str("weeks") }
            } else if str_eq(u, "months") {
                if n == 1 { String::from_str("month") } else { String::from_str("months") }
            } else {
                String::from_str(u)
            };
            let mut s = String::from_str("every ");
            if n != 1 {
                s.append(i64_string(n).as_str());
                s.append(" ");
            }
            s.append(unit_s.as_str());
            s
        } else {
            String::from_str(r)
        }
    };
    Some(s)
}

pub open spec fn month_short(i: int) -> Seq<char> {
    if i == 0 { "Jan"@ }
    else if i == 1 { "Feb"@ }
    else if i == 2 { "Mar"@ }
    else if i == 3 { "Apr"@ }
    else if i == 4 { "May"@ }
    else if i == 5 { "Jun"@ }
    else if i == 6 { "Jul"@ }
    else if i == 7 { "Aug"@ }
    else if i == 8 { "Sep"@ }
    else if i == 9 { "Oct"@ }
    else if i == 10 { "Nov"@ }
    else { "Dec"@ }
}

fn month_short_of(i: u32) -> (s: &'static str)
    requires
        i < 12,
    ensures
        s@ == month_short(i as int),
{
    if i == 0 { "Jan" }
    else if i == 1 { "Feb" }
    else if i == 2 { "Mar" }
    else if i == 3 { "Apr" }
    else if i == 4 { "May" }
    else if i == 5 { "Jun" }
    else if i == 6 { "Jul" }
    else if i == 7 { "Aug" }
    else if i == 8 { "Sep" }
    else if i == 9 { "Oct" }
    else if i == 10 { "Nov" }
    else { "Dec" }
}

/// `s.parse::<i32>()` succeeds.
pub open spec fn parses_i32(s: Seq<char>) -> bool {
    match parse_int(s, false) {
        Some(v) => i32::MIN <= v <= i32::MAX,
        None => false,
    }
}

pub open spec fn opt_u32(o: Option<Seq<char>>) -> Option<u32> {
    match o {
        Some(s) => parse_u32_spec(s),
        None => None,
    }
}

/// The year of a local date, when it parses as an `i32`.
pub open spec fn year_of(date: Seq<char>) -> int {
    match split_nth(date, '-', 0) {
        Some(s) => match parse_int(s, false) {
            Some(v) => v,
            None => 0,
        },
        None => 0,
    }
}

/// Every step of the weekday computation fits an `i64` for an `i32` year and
/// `u32` month and day.
proof fn lemma_dow_fits(y: int, m: int, d: int)
    requires
        i32::MIN <= y <= i32::MAX,
        0 <= m <= u32::MAX,
        0 <= d <= u32::MAX,
    ensures
        dow_fits(y, m, d),
{
    let y2 = if m < 3 { y - 1 } else { y };
    assert(-0x1_0000_0000 <= tdiv(y2, 4) <= 0x1_0000_0000);
    assert(-0x1_0000_0000 <= tdiv(y2, 100) <= 0x1_0000_0000);
    assert(-0x1_0000_0000 <= tdiv(y2, 400) <= 0x1_0000_0000);
    assert(0 <= month_offset(clamp(m - 1, 0, 11)) <= 6);
}

/// "Mon, Jul 20 at 2:30 PM" from a local "YYYY-MM-DD HH:MM"; the escaped text
/// itself when it is not in that shape.
pub open spec fn pretty_when_spec(local: Seq<char>) -> Seq<char> {
    match after_first(local, ' ') {
        None => esc_seq(local),
        Some(time) => {
            let date = before_first(local, ' ');
            let y_ok = match split_nth(date, '-', 0) {
                Some(s) => parses_i32(s),
                None => false,
            };
            let m = opt_u32(split_nth(date, '-', 1));
            let d = opt_u32(split_nth(date, '-', 2));
            if !y_ok || m is None || d is None {
                esc_seq(local)
            } else {
                let mi: int = if m->0 == 0 { 0 } else { m->0 - 1 };
                let mon = if mi < 12 { month_short(mi) } else { Seq::empty() };
                let h: int = match after_first(time, ':') {
                    Some(_) => match parse_u32_spec(before_first(time, ':')) {
                        Some(v) => v as int,
                        None => 0,
                    },
                    None => 0,
                };
                let min = match after_first(time, ':') {
                    Some(mi) => mi,
                    None => "00"@,
                };
                let h12: int = if h == 0 { 12 } else if h <= 12 { h } else { h - 12 };
                let ampm = if h < 12 { "AM"@ } else { "PM"@ };
                weekday_name(dow_spec(year_of(date), m->0 as int, d->0 as int)) + ", "@ + mon + " "@
                    + decimal(d->0 as int) + " at "@ + decimal(h12) + ":"@ + min + " "@ + ampm
            }
        },
    }
}

/// "Mon, Jul 20 at 2:30 PM" from a local "YYYY-MM-DD HH:MM".
pub fn pretty_when(local: &str) -> (out: String)
    ensures
        out@ == pretty_when_spec(local@),
{
    let cs = chars_of(local);
    let (date, time) = match split_once(&cs, ' ') {
        Some(p) => p,
        None => return esc(local),
    };
    let (y_ok, y) = match nth_item(&date, '-', 0) {
        Some(s) => match parse_i64(&s) {
            Some(v) => (-2147483648 <= v && v <= 2147483647, v),
            None => (false, 0),
        },
        None => (false, 0),
    };
    let m = match nth_item(&date, '-', 1) {
        Some(s) => parse_u32(&s),
        None => None,
    };
    let d = match nth_item(&date, '-', 2) {
        Some(s) => parse_u32(&s),
        None => None,
    };
    if !y_ok || m.is_none() || d.is_none() {
        return esc(local);
    }
    let m = m.unwrap();
    let d = d.unwrap();
    proof {
        lemma_dow_fits(y as int, m as int, d as int);
    }
    let wd = day_of_week(y, m as i64, d as i64);
    let mut s = String::from_str(weekday_short(wd));
    s.append(", ");
    let mi: u32 = if m == 0 { 0 } else { m - 1 };
    if mi < 12 {
        s.append(month_short_of(mi));
    }
    let (h, min) = match split_once(&time, ':') {
        Some((hs, mis)) => (
            match parse_u32(&hs) {
                Some(v) => v,
                None => 0,
            },
            mis,
        ),
        None => (0u32, chars_of("00")),
    };
    let h12: u32 = if h == 0 { 12 } else if h <= 12 { h } else { h - 12 };
    s.append(" ");
    s.append(i64_string(d as i64).as_str());
    s.append(" at ");
    s.append(i64_string(h12 as i64).as_str());
    s.append(":");
    s.append(string_of(&min).as_str());
    s.append(" ");
    s.append(if h < 12 { "AM" } else { "PM" });
    s
}


/// The accent color of the reminder email: the category's, or the app's teal.
pub open spec fn accent_spec(job: ReminderJob) -> Seq<char> {
    match ostr(job.category_color) {
        Some(c) => c,
        None => "#18a89e"@,
    }
}

pub open spec fn note_html_spec(job: ReminderJob) -> Seq<char> {
    match note_text(job) {
        Some(n) => r#"<p style="margin:14px 0 0;font-size:14px;line-height:1.5;color:#3a3a3c;">"#@ + esc_seq(n) + r#"</p>"#@,
        None => Seq::empty(),
    }
}

pub open spec fn cat_html_spec(job: ReminderJob) -> Seq<char> {
    match ostr(job.category_name) {
        Some(c) => if c.len() > 0 {
            r#"<span style="display:inline-block;margin-top:12px;padding:3px 10px;border-radius:999px;background:"#@ + accent_spec(job) + r#"1a;color:"#@ + accent_spec(job) + r#";font-size:12px;font-weight:600;">"#@ + esc_seq(c) + r#"</span>"#@
        } else {
            Seq::empty()
        },
        None => Seq::empty(),
    }
}

pub open spec fn repeat_html_spec(job: ReminderJob) -> Seq<char> {
    match summarize_spec(ostr(job.rrule)) {
        Some(r) => r#"<p style="margin:6px 0 0;font-size:12px;color:#8a8a8e;">Repeats "#@ + esc_seq(r) + r#"</p>"#@,
        None => Seq::empty(),
    }
}

/// The reminder email's HTML.
pub open spec fn reminder_html_spec(job: ReminderJob) -> Seq<char> {
    r#"<!doctype html><html><body style="margin:0;padding:0;background:#f2f2f5;">
<table role="presentation" width="100%" cellpadding="0" cellspacing="0" style="background:#f2f2f5;padding:28px 12px;">
<tr><td align="center">
<table role="presentation" width="100%" cellpadding="0" cellspacing="0" style="max-width:460px;background:#ffffff;border-radius:16px;overflow:hidden;box-shadow:0 1px 3px rgba(0,0,0,0.06);">
  <tr><td style="height:4px;background:"#@ + accent_spec(job) + r#";"></td></tr>
  <tr><td style="padding:26px 28px 28px;font-family:-apple-system,BlinkMacSystemFont,'Segoe UI',Roboto,Helvetica,Arial,sans-serif;">
    <p style="margin:0 0 4px;font-size:12px;font-weight:700;letter-spacing:.08em;text-transform:uppercase;color:"#@ + accent_spec(job) + r#";">Reminder</p>
    <h1 style="margin:0;font-size:22px;line-height:1.25;font-weight:700;color:#1d1d1f;">"#@ + esc_seq(job.task_title@) + r#"</h1>
    <p style="margin:10px 0 0;font-size:14px;font-weight:600;color:#1d1d1f;">"#@ + pretty_when_spec(job.remind_at_local@) + r#"</p>
    "#@ + repeat_html_spec(job) + r#"
    "#@ + cat_html_spec(job) + r#"
    "#@ + note_html_spec(job) + r#"
    <hr style="border:none;border-top:1px solid #e6e6eb;margin:22px 0 0;">
    <p style="margin:16px 0 0;font-size:12px;color:#aeaeb2;">Sent by Achieve, your day companion.</p>
  </td></tr>
</table>
</td></tr></table>
</body></html>"#@
}

/// (subject, html) for a reminder email. The identity is not part of the text.
pub fn render(job: &ReminderJob, ident: &(String, String, String, String)) -> (out: (String, String))
    ensures
        out.0@ == "⏰ Reminder: "@ + job.task_title@,
        out.1@ == reminder_html_spec(*job),
{
    let title = esc(job.task_title.as_str());
    let mut subject = String::from_str("⏰ Reminder: ");
    subject.append(job.task_title.as_str());
    let when = pretty_when(job.remind_at_local.as_str());
    let accent = match &job.category_color {
        Some(c) => c.clone(),
        None => String::from_str("#18a89e"),
    };
    let note_html = match note_of(job) {
        Some(n) => {
            let en = esc(n.as_str());
            let mut w = String::from_str(r#"<p style="margin:14px 0 0;font-size:14px;line-height:1.5;color:#3a3a3c;">"#);
            w.append(en.as_str());
            w.append(r#"</p>"#);
            w
        },
        None => String::new(),
    };
    let cat_html = match &job.category_name {
        Some(c) => if chars_of(c.as_str()).len() > 0 {
            let ec = esc(c.as_str());
            let mut w = String::from_str(r#"<span style="display:inline-block;margin-top:12px;padding:3px 10px;border-radius:999px;background:"#);
            w.append(accent.as_str());
            w.append(r#"1a;color:"#);
            w.append(accent.as_str());
            w.append(r#";font-size:12px;font-weight:600;">"#);
            w.append(ec.as_str());
            w.append(r#"</span>"#);
            w
        } else {
            String::new()
        },
        None => String::new(),
    };
    let rr = match &job.rrule {
        Some(r) => Some(r.as_str()),
        None => None,
    };
    let repeat_html = match summarize_rrule(rr) {
        Some(r) => {
            let er = esc(r.as_str());
            let mut w = String::from_str(r#"<p style="margin:6px 0 0;font-size:12px;color:#8a8a8e;">Repeats "#);
            w.append(er.as_str());
            w.append(r#"</p>"#);
            w
        },
        None => String::new(),
    };
    let mut w = String::from_str(r#"<!doctype html><html><body style="margin:0;padding:0;background:#f2f2f5;">
<table role="presentation" width="100%" cellpadding="0" cellspacing="0" style="background:#f2f2f5;padding:28px 12px;">
<tr><td align="center">
<table role="presentation" width="100%" cellpadding="0" cellspacing="0" style="max-width:460px;background:#ffffff;border-radius:16px;overflow:hidden;box-shadow:0 1px 3px rgba(0,0,0,0.06);">
  <tr><td style="height:4px;background:"#);
    w.append(accent.as_str());
    w.append(r#";"></td></tr>
  <tr><td style="padding:26px 28px 28px;font-family:-apple-system,BlinkMacSystemFont,'Segoe UI',Roboto,Helvetica,Arial,sans-serif;">
    <p style="margin:0 0 4px;font-size:12px;font-weight:700;letter-spacing:.08em;text-transform:uppercase;color:"#);
    w.append(accent.as_str());
    w.append(r#";">Reminder</p>
    <h1 style="margin:0;font-size:22px;line-height:1.25;font-weight:700;color:#1d1d1f;">"#);
    w.append(title.as_str());
    w.append(r#"</h1>
    <p style="margin:10px 0 0;font-size:14px;font-weight:600;color:#1d1d1f;">"#);
    w.append(when.as_str());
    w.append(r#"</p>
    "#);
    w.append(repeat_html.as_str());
    w.append(r#"
    "#);
    w.append(cat_html.as_str());
    w.append(r#"
    "#);
    w.append(note_html.as_str());
    w.append(r#"
    <hr style="border:none;border-top:1px solid #e6e6eb;margin:22px 0 0;">
    <p style="margin:16px 0 0;font-size:12px;color:#aeaeb2;">Sent by Achieve, your day companion.</p>
  </td></tr>
</table>
</td></tr></table>
</body></html>"#);
    (subject, w)
}

} // verus!
