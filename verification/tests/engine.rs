use achieve::engine::{
    break_over, due_for_break, needs_attention, over_committed, pick_at_risk, reached_estimate,
    risk_message, tick_sleep_ms, worth_surfacing, EngineState, TickActions, TickInput,
};
use achieve::model::{Snapshot, Task};

fn snap() -> Snapshot {
    Snapshot {
        pending: 2,
        in_progress: 0,
        completed_today: 0,
        active_task_id: None,
        active_task_title: None,
        active_awaiting: false,
        active_since_min: 0,
        active_estimate_min: None,
        active_tracked_min: 0,
        tracked_today_min: 0,
        minutes_left_in_day: 120,
        minutes_committed: 60,
        greeting: String::new(),
        planned_today: true,
        worked_since_break_min: 0,
        away_today_min: 0,
        on_break: false,
        break_remaining_sec: 0,
    }
}

fn task(title: &str, status: &str, est: Option<i64>, spent: i64) -> Task {
    Task {
        id: 1,
        category_id: None,
        category_name: None,
        category_color: None,
        title: title.to_string(),
        body_md: String::new(),
        estimate_min: est,
        status: status.to_string(),
        recurrence: None,
        plan_date: None,
        tracked_min: spent,
    }
}

#[test]
fn emits_are_throttled() {
    let mut st = EngineState::new();
    assert!(st.emit_due(1_000));
    assert!(!st.emit_due(2_500));
    assert!(st.emit_due(3_000));
}

#[test]
fn email_attempts_retry_every_ten_minutes() {
    let mut st = EngineState::new();
    assert!(st.wants_email(false, true));
    assert!(st.email_step(true, 0));
    assert!(!st.email_step(true, 599_999));
    assert!(st.email_step(true, 600_000));
    st.email_sent();
    assert!(!st.wants_email(false, true));
    assert!(st.wants_email(true, false));
    assert!(!st.email_step(false, 700_000));
    assert_eq!(st.last_email_attempt, None);
    assert!(!st.email_catchup);
}

#[test]
fn day_rollover_is_seen_once() {
    let mut st = EngineState::new();
    assert!(!st.day_changed(""));
    assert!(st.day_changed("2026-07-01"));
    assert!(!st.day_changed("2026-07-01"));
    assert!(st.day_changed("2026-07-02"));
}

#[test]
fn idle_episodes_pause_once_unless_media_plays() {
    let mut st = EngineState::new();
    assert!(!st.on_idle(true));
    assert!(st.on_idle(false));
    assert!(!st.on_idle(false));
    assert!(st.on_active());
    assert!(!st.on_active());
}

#[test]
fn active_task_changes_are_reported_after_the_first_tick() {
    let mut st = EngineState::new();
    assert!(!st.active_changed(Some(3)));
    assert!(!st.active_changed(Some(3)));
    assert!(st.active_changed(None));
}

#[test]
fn untracked_cue_backs_off_then_goes_silent() {
    let mut st = EngineState::new();
    assert!(!st.cue_step(true, true, false, 0));
    assert!(st.cue_step(true, true, false, 90_000));
    assert!(!st.cue_step(true, true, false, 150_000));
    assert!(st.cue_step(true, true, false, 180_000));
    assert!(st.cue_step(true, true, false, 360_000));
    assert!(st.cue_step(true, true, false, 720_000));
    assert!(st.cue_step(true, true, false, 1_200_000));
    assert_eq!(st.untracked_cues, 5);
    assert!(!st.cue_step(true, true, false, 9_000_000));
    assert!(!st.cue_step(true, true, true, 9_000_000));
    assert_eq!(st.untracked_cues, 0);
    assert_eq!(st.untracked_since, None);
}

#[test]
fn nudges_and_break_prompts_wait_five_minutes() {
    let mut st = EngineState::new();
    assert!(st.first_surface(0));
    assert!(!st.first_surface(10));
    assert!(!st.nudge_step(false, true, true, 100_000));
    assert!(st.nudge_step(false, true, true, 300_000));
    assert!(!st.nudge_step(true, true, true, 900_000));
    assert!(st.break_prompt_step(true, false, false, 0));
    assert!(!st.break_prompt_step(true, false, false, 1_000));
    assert!(!st.break_prompt_step(false, false, false, 2_000));
    assert_eq!(st.last_break_prompt, None);
}

#[test]
fn break_over_chime_plays_once() {
    let mut st = EngineState::new();
    assert!(!st.chime_step(true, 30));
    assert!(st.chime_step(true, 0));
    assert!(!st.chime_step(true, -5));
    assert!(!st.chime_step(false, 0));
    assert!(st.chime_step(true, 0));
}

#[test]
fn snapshot_predicates() {
    let mut sn = snap();
    assert!(needs_attention(&sn));
    assert!(worth_surfacing(&sn));
    assert!(!over_committed(&sn));
    sn.minutes_committed = 200;
    assert!(over_committed(&sn));
    sn.active_task_id = Some(4);
    sn.active_estimate_min = Some(30);
    sn.active_tracked_min = 30;
    assert!(!needs_attention(&sn));
    assert_eq!(reached_estimate(&sn), Some((4, 30)));
    sn.active_awaiting = true;
    assert_eq!(reached_estimate(&sn), None);
    assert!(needs_attention(&sn));
    sn.active_awaiting = false;
    sn.worked_since_break_min = 50;
    assert!(due_for_break(true, 50, &sn, false));
    assert!(!due_for_break(true, 50, &sn, true));
    assert!(!due_for_break(false, 50, &sn, false));
    sn.on_break = true;
    sn.break_remaining_sec = 0;
    assert!(break_over(&sn));
    assert_eq!(tick_sleep_ms(true), 1_000);
    assert_eq!(tick_sleep_ms(false), 20_000);
}

#[test]
fn at_risk_task_is_the_largest_barely_started_one() {
    let tasks = vec![
        task("small", "pending", Some(60), 0),
        task("done", "completed", Some(600), 0),
        task("started", "in_progress", Some(100), 20),
        task("big", "paused", Some(240), 10),
        task("big too", "awaiting", Some(240), 0),
        task("no estimate", "pending", None, 0),
    ];
    assert_eq!(pick_at_risk(&tasks), Some(("big too".to_string(), 240)));
    assert_eq!(pick_at_risk(&vec![task("x", "completed", Some(60), 0)]), None);
}

#[test]
fn risk_message_rounds_to_hours() {
    let (summary, body) = risk_message("Essay", 150);
    assert_eq!(summary, "A task is slipping");
    assert_eq!(
        body,
        "\u{201c}Essay\u{201d} is barely started (~2h planned) and today's buffer is gone. Time to switch?"
    );
    assert!(risk_message("Essay", 45).1.contains("(~45m planned)"));
}

fn input(idle: bool, playing: bool, visible: bool, now: u64) -> TickInput {
    TickInput { idle, playing, visible, due_for_break: false, sound_muted: false, now }
}

fn shows_anything(a: &TickActions) -> bool {
    a.show_start_view
        || a.stop_at_estimate.is_some()
        || a.nudge_after_estimate
        || a.chime
        || a.show_break
        || a.cue_sound
        || a.cue_front
        || a.show_nudge
        || a.check_risk
}

#[test]
fn idle_ticks_pause_once_and_stay_quiet() {
    let mut st = EngineState::new();
    let s = snap();
    let a = st.tick(&input(true, false, false, 0), &s);
    assert!(a.pause_for_idle);
    assert!(!shows_anything(&a));
    assert_eq!(a.sleep_ms, 20_000);
    for t in 1..5u64 {
        let a = st.tick(&input(true, false, false, t * 20_000), &s);
        assert!(!a.pause_for_idle);
        assert!(!shows_anything(&a));
    }
}

#[test]
fn media_keeps_an_idle_tick_from_pausing() {
    let mut st = EngineState::new();
    let s = snap();
    let a = st.tick(&input(true, true, false, 0), &s);
    assert!(!a.pause_for_idle);
    assert!(!shows_anything(&a));
    let a = st.tick(&input(true, false, false, 20_000), &s);
    assert!(a.pause_for_idle);
}

#[test]
fn return_closes_away_and_first_surface_is_alone() {
    let mut st = EngineState::new();
    let s = snap();
    st.tick(&input(true, false, false, 0), &s);
    let a = st.tick(&input(false, false, false, 20_000), &s);
    assert!(a.close_away);
    assert!(a.show_start_view);
    assert!(!a.show_nudge && !a.cue_front && !a.check_risk);
    let a = st.tick(&input(false, false, false, 40_000), &s);
    assert!(!a.close_away);
    assert!(!a.show_start_view);
}

#[test]
fn active_ticks_cue_and_stop_at_estimate() {
    let mut st = EngineState::new();
    let mut s = snap();
    st.tick(&input(false, false, true, 0), &s);
    // Untracked and worth surfacing: the first cue comes after 90 s.
    let a = st.tick(&input(false, false, true, 10_000), &s);
    assert!(!a.cue_front);
    assert!(a.check_risk == false);
    let a = st.tick(&input(false, false, true, 100_000), &s);
    assert!(a.cue_front && a.cue_sound);
    // A task at its estimate is stopped, and the hub shown when hidden.
    s.active_task_id = Some(4);
    s.active_estimate_min = Some(30);
    s.active_tracked_min = 30;
    let a = st.tick(&input(false, false, false, 120_000), &s);
    assert!(a.tasks_changed);
    assert_eq!(a.stop_at_estimate, Some((4, 30)));
    assert!(a.nudge_after_estimate);
    assert!(!a.cue_front);
}
