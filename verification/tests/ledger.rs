use achieve::ledger::{
    break_remaining_sec, break_settings_from, break_settings_values, clamp_i64, credited_task,
    default_day_plan, estimate_allowance_secs, fires_left, greeting, is_daily_rule, is_on_break,
    like_pattern, live_message_id, minutes_until, note_limit, occurrence_step, parse_hhmm_min,
    remaining_committed, resume_setting_value, resume_task_id, seconds_after, seconds_before,
    setting_i64, skip_weekend, snooze_modifier, step_modifier, until_bound, week_start_from,
    week_start_value, weekday_short, worked_since_break, OccurrenceStep,
};
use achieve::model::BreakSettings;

#[test]
fn clamp_and_allowance() {
    assert_eq!(clamp_i64(5, 1, 3), 3);
    assert_eq!(clamp_i64(-5, 1, 3), 1);
    assert_eq!(estimate_allowance_secs(30, 600), 1200);
    assert_eq!(estimate_allowance_secs(10, 900), 0);
}

#[test]
fn sqlite_modifiers() {
    assert_eq!(seconds_after(120), "+120 seconds");
    assert_eq!(seconds_before(300), "-300 seconds");
    assert_eq!(snooze_modifier(10), "+10 minutes");
    assert_eq!(snooze_modifier(0), "+1 minutes");
    assert_eq!(snooze_modifier(500), "+120 minutes");
}

#[test]
fn committed_time_counts_only_what_remains() {
    assert_eq!(remaining_committed(&vec![(60, 20), (30, 45), (90, 0)]), 130);
    assert_eq!(remaining_committed(&vec![]), 0);
}

#[test]
fn stop_time_arithmetic() {
    assert_eq!(minutes_until("18:00", 600), 480);
    assert_eq!(minutes_until("17:30", 1100), 0);
    assert_eq!(minutes_until("xx:30", 0), 1110);
    assert_eq!(minutes_until("nonsense", 60), 1020);
    assert_eq!(parse_hhmm_min("09:15"), Some(555));
    assert_eq!(parse_hhmm_min(" 7 "), Some(420));
    assert_eq!(parse_hhmm_min("24:00"), None);
    assert_eq!(parse_hhmm_min("10:60"), None);
}

#[test]
fn greetings_follow_the_hour() {
    assert_eq!(greeting(8), "Good morning. Let's set the day.");
    assert_eq!(greeting(13), "Afternoon. Keep the momentum.");
    assert_eq!(greeting(19), "Evening. Let's land the day well.");
    assert_eq!(greeting(2), "Still up? Let's keep it gentle.");
    assert_eq!(weekday_short(0), "Sun");
    assert_eq!(weekday_short(6), "Sat");
    assert_eq!(weekday_short(9), "?");
}

#[test]
fn settings_read_back_what_was_written() {
    assert_eq!(setting_i64(Some("42"), 7), 42);
    assert_eq!(setting_i64(Some("x"), 7), 7);
    assert_eq!(setting_i64(None, 7), 7);
    assert_eq!(week_start_from(Some(&week_start_value(9))), 6);
    assert_eq!(week_start_from(Some("3")), 3);
    assert_eq!(week_start_from(Some("8")), 1);
    assert_eq!(week_start_from(None), 1);
    let b = break_settings_from(Some("0"), Some("1000"), None, Some("abc"));
    assert!(!b.enabled);
    assert_eq!((b.work_min, b.duration_min, b.snooze_min), (240, 5, 5));
    let stored = BreakSettings { enabled: true, work_min: 3, duration_min: 90, snooze_min: 10 };
    let (e, w, d, s) = break_settings_values(&stored);
    assert_eq!((e.as_str(), w.as_str(), d.as_str(), s.as_str()), ("1", "5", "60", "10"));
    let back = break_settings_from(Some(&e), Some(&w), Some(&d), Some(&s));
    assert_eq!((back.enabled, back.work_min, back.duration_min, back.snooze_min), (true, 5, 60, 10));
    assert_eq!(resume_task_id(Some(&resume_setting_value(Some(12)))), Some(12));
    assert_eq!(resume_setting_value(None), "");
    assert_eq!(resume_task_id(Some("")), None);
}

#[test]
fn breaks_and_streaks() {
    assert!(is_on_break(Some(4), Some(4)));
    assert!(!is_on_break(Some(4), Some(5)));
    assert!(!is_on_break(None, None));
    assert_eq!(break_remaining_sec(5, 120), 180);
    assert_eq!(break_remaining_sec(5, 400), -100);
    // Two segments 2 minutes apart form one streak; a 10-minute gap starts a new one.
    assert_eq!(worked_since_break(&vec![(0, 600), (720, 1320)], 0), 20);
    assert_eq!(worked_since_break(&vec![(0, 600), (720, 1320)], 1020), 5);
    assert_eq!(worked_since_break(&vec![(0, 600), (1200, 1800)], 0), 10);
    assert_eq!(worked_since_break(&vec![], 100), 0);
}

#[test]
fn recurrence_steps() {
    assert_eq!(step_modifier("daily"), Some("+1 day".to_string()));
    assert_eq!(step_modifier("weekly"), Some("+7 days".to_string()));
    assert_eq!(step_modifier("every:2:weeks"), Some("+14 days".to_string()));
    assert_eq!(step_modifier("every:3:months"), Some("+3 months".to_string()));
    assert_eq!(step_modifier("every:0:days"), None);
    assert_eq!(step_modifier("once"), None);
    assert!(fires_left(None));
    assert!(fires_left(Some(2)));
    assert!(!fires_left(Some(0)));
    assert!(skip_weekend(true, true, 0));
    assert!(!skip_weekend(true, true, 7));
    match occurrence_step("2026-07-02 09:00:00".to_string(), None, "2026-07-01 10:00:00", Some(3)) {
        OccurrenceStep::Found { at, remaining } => {
            assert_eq!(at, "2026-07-02 09:00:00");
            assert_eq!(remaining, Some(2));
        },
        _ => panic!("expected a future slot"),
    }
    match occurrence_step("2026-06-30 09:00:00".to_string(), None, "2026-07-01 10:00:00", None) {
        OccurrenceStep::Again { remaining, .. } => assert_eq!(remaining, None),
        _ => panic!("expected a past slot"),
    }
    assert!(matches!(
        occurrence_step("2026-07-05 09:00:00".to_string(), Some("2026-07-04 23:59:59"), "2026-07-01", None),
        OccurrenceStep::Ended
    ));
}

#[test]
fn note_search_patterns() {
    assert_eq!(like_pattern("  50%_off "), Some("%50\\%\\_off%".to_string()));
    assert_eq!(like_pattern("   "), None);
    assert_eq!(note_limit(0), 1);
    assert_eq!(note_limit(10_000), 500);
    assert_eq!(until_bound(Some("2026-07-01")), Some("2026-07-01 23:59:59".to_string()));
    assert_eq!(until_bound(Some("  ")), None);
    assert_eq!(live_message_id(Some(String::new())), None);
    assert_eq!(live_message_id(Some("m1".to_string())), Some("m1".to_string()));
}

#[test]
fn plan_defaults_and_focus_labels() {
    let p = default_day_plan("2026-07-01".to_string());
    assert_eq!(p.available_minutes, 480);
    assert_eq!(p.stop_time, Some("18:00".to_string()));
    assert_eq!(p.intentions, "");
    assert_eq!(credited_task("work", Some(3)), Some(3));
    assert_eq!(credited_task("distraction", Some(3)), None);
    assert!(is_daily_rule(Some("daily")));
    assert!(!is_daily_rule(Some("weekly")));
    assert!(!is_daily_rule(None));
}
