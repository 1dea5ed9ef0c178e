use achieve::reminder::{
    advance_rule, fire_notification, pretty_when, process, render, summarize_rrule, wants_email,
    ReminderAction, ReminderJob,
};

fn s(x: &str) -> String {
    x.to_string()
}

fn job() -> ReminderJob {
    ReminderJob {
        id: 1,
        task_id: 7,
        task_title: s("Pay <rent>"),
        task_status: s("pending"),
        task_recurrence: None,
        category_name: Some(s("Home")),
        category_color: Some(s("#ff8800")),
        plan_date: None,
        remind_at: s("2026-07-20 12:30:00"),
        remind_at_local: s("2026-07-20 14:30"),
        rrule: Some(s("daily")),
        rrule_until: None,
        rrule_count: None,
        channel: s("both"),
        note: Some(s("  bring the checkbook ")),
        status: s("pending"),
        message_id: None,
    }
}

fn ident() -> (String, String, String, String) {
    (s("from@x"), s("Me"), s("reply@x"), s("to@x"))
}

#[test]
fn summarize_rrule_phrases() {
    assert_eq!(summarize_rrule(None), None);
    assert_eq!(summarize_rrule(Some("")), None);
    assert_eq!(summarize_rrule(Some("daily")), Some(s("every day")));
    assert_eq!(summarize_rrule(Some("weekdays")), Some(s("every weekday")));
    assert_eq!(summarize_rrule(Some("biweekly")), Some(s("every 2 weeks")));
    assert_eq!(summarize_rrule(Some("yearly")), Some(s("every year")));
    assert_eq!(summarize_rrule(Some("every:1:weeks")), Some(s("every week")));
    assert_eq!(summarize_rrule(Some("every:3:days")), Some(s("every 3 days")));
    assert_eq!(summarize_rrule(Some("every:2")), Some(s("every 2 days")));
    assert_eq!(summarize_rrule(Some("every:x:months")), Some(s("every month")));
    assert_eq!(summarize_rrule(Some("every:5:fortnights")), Some(s("every 5 fortnights")));
    assert_eq!(summarize_rrule(Some("custom")), Some(s("custom")));
}

#[test]
fn pretty_when_reads_a_local_time() {
    assert_eq!(pretty_when("2026-07-20 14:30"), "Mon, Jul 20 at 2:30 PM");
    assert_eq!(pretty_when("2026-07-20 00:05"), "Mon, Jul 20 at 12:05 AM");
    assert_eq!(pretty_when("2026-07-20 12:00"), "Mon, Jul 20 at 12:00 PM");
    assert_eq!(pretty_when("2026-01-02 9:15"), "Fri, Jan 2 at 9:15 AM");
    assert_eq!(pretty_when("2026-00-05 9"), "Mon, Jan 5 at 12:00 AM");
    assert_eq!(pretty_when("2026-13-05 10:00"), "Sat,  5 at 10:00 AM");
    assert_eq!(pretty_when("2024-02-29 08:00"), "Thu, Feb 29 at 8:00 AM");
    assert_eq!(pretty_when("2026-03-01 18:45"), "Sun, Mar 1 at 6:45 PM");
    assert_eq!(pretty_when("2026-07-20"), "2026-07-20");
    assert_eq!(pretty_when("x-07-20 <10:00>"), "x-07-20 &lt;10:00&gt;");
}

#[test]
fn cancelled_and_orphaned_reminders_are_torn_down() {
    let mut j = job();
    j.status = s("cancelled");
    assert_eq!(process(&j, true, "2026-07-20 10:00:00", "2026-07-20 10:02:00"), ReminderAction::TearDown);
    let mut j = job();
    j.task_status = s("deleted");
    assert_eq!(process(&j, true, "2026-07-20 10:00:00", "2026-07-20 10:02:00"), ReminderAction::CancelGone);
    let mut j = job();
    j.task_status = s("completed");
    assert_eq!(process(&j, true, "2026-07-20 10:00:00", "2026-07-20 10:02:00"), ReminderAction::CancelGone);
    j.task_recurrence = Some(s("daily"));
    assert_eq!(process(&j, true, "2026-07-20 10:00:00", "2026-07-20 10:02:00"), ReminderAction::Schedule);
}

#[test]
fn scheduled_reminders_fire_locally_once_due() {
    let mut j = job();
    j.status = s("scheduled");
    assert_eq!(process(&j, true, "2026-07-20 10:00:00", "2026-07-20 10:02:00"), ReminderAction::Wait);
    assert_eq!(
        process(&j, true, "2026-07-20 12:30:00", "2026-07-20 12:32:00"),
        ReminderAction::Delivered { notify: true }
    );
    j.channel = s("email");
    assert_eq!(
        process(&j, true, "2026-07-20 13:00:00", "2026-07-20 13:02:00"),
        ReminderAction::Delivered { notify: false }
    );
}

#[test]
fn due_reminders_fire_now_and_later_ones_are_scheduled() {
    let j = job();
    assert_eq!(
        process(&j, true, "2026-07-20 12:29:00", "2026-07-20 12:31:00"),
        ReminderAction::FireNow { email: true, notify: true }
    );
    assert_eq!(
        process(&j, false, "2026-07-20 12:29:00", "2026-07-20 12:31:00"),
        ReminderAction::FireNow { email: false, notify: true }
    );
    assert_eq!(process(&j, true, "2026-07-19 09:00:00", "2026-07-19 09:02:00"), ReminderAction::Schedule);
    assert_eq!(process(&j, false, "2026-07-19 09:00:00", "2026-07-19 09:02:00"), ReminderAction::Wait);
    let mut n = job();
    n.channel = s("notification");
    assert!(!wants_email(&n));
    assert_eq!(process(&n, true, "2026-07-19 09:00:00", "2026-07-19 09:02:00"), ReminderAction::Wait);
}

#[test]
fn advance_rule_needs_a_rule() {
    let mut j = job();
    assert_eq!(advance_rule(&j), Some("daily"));
    j.rrule = Some(s(""));
    assert_eq!(advance_rule(&j), None);
    j.rrule = None;
    assert_eq!(advance_rule(&j), None);
}

#[test]
fn notification_uses_the_note_or_a_default() {
    let (title, body) = fire_notification(&job());
    assert_eq!(title, "⏰ Pay <rent>");
    assert_eq!(body, "bring the checkbook");
    let mut j = job();
    j.note = Some(s("   "));
    assert_eq!(fire_notification(&j).1, "Reminder");
    j.note = None;
    assert_eq!(fire_notification(&j).1, "Reminder");
}

#[test]
fn reminder_email_escapes_and_summarizes() {
    let (subject, html) = render(&job(), &ident());
    assert_eq!(subject, "⏰ Reminder: Pay <rent>");
    assert!(html.contains(">Pay &lt;rent&gt;</h1>"));
    assert!(html.contains("Mon, Jul 20 at 2:30 PM"));
    assert!(html.contains("Repeats every day"));
    assert!(html.contains("background:#ff88001a;color:#ff8800;"));
    assert!(html.contains(">Home</span>"));
    assert!(html.contains(">bring the checkbook</p>"));
    let mut j = job();
    j.category_color = None;
    j.category_name = Some(s(""));
    j.note = None;
    j.rrule = None;
    let (_, plain) = render(&j, &ident());
    assert!(plain.contains("background:#18a89e;"));
    assert!(!plain.contains("Repeats"));
    assert!(!plain.contains("border-radius:999px"));
}
