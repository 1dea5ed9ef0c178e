//! Data types shared with the frontend.

use vstd::prelude::*;

verus! {

#[derive(Debug, Clone)]
pub struct Category {
    pub id: i64,
    pub name: String,
    pub color: String,
    pub parent_id: Option<i64>,
}

#[derive(Debug, Clone)]
pub struct Task {
    pub id: i64,
    pub category_id: Option<i64>,
    pub category_name: Option<String>,
    pub category_color: Option<String>,
    pub title: String,
    pub body_md: String,
    pub estimate_min: Option<i64>,
    pub status: String,
    pub recurrence: Option<String>,
    pub plan_date: Option<String>,
    /// Total minutes of all its work segments, the open one included.
    pub tracked_min: i64,
}

/// Privacy-safe summary shown before the user taps Reveal: counts only, never
/// task content, with one exception: the active task's title, which the hub
/// shows while a task runs.
#[derive(Debug, Clone)]
pub struct Snapshot {
    pub pending: i64,
    pub in_progress: i64,
    pub completed_today: i64,
    pub active_task_id: Option<i64>,
    /// The title of the active task, if any.
    pub active_task_title: Option<String>,
    /// The active task reached its estimate and waits for a decision.
    pub active_awaiting: bool,
    pub active_since_min: i64,
    pub active_estimate_min: Option<i64>,
    /// Total tracked minutes on the active task across all its segments.
    pub active_tracked_min: i64,
    pub tracked_today_min: i64,
    pub minutes_left_in_day: i64,
    pub minutes_committed: i64,
    pub greeting: String,
    pub planned_today: bool,
    /// Minutes of continuous tracked work since the last break.
    pub worked_since_break_min: i64,
    /// Minutes away from the machine today.
    pub away_today_min: i64,
    /// The active task is the Break task.
    pub on_break: bool,
    /// Seconds left in the current break (<= 0 once it is over).
    pub break_remaining_sec: i64,
}

/// A task reminder; `remind_at` (UTC) is the source of truth, the local copy
/// is for display.
#[derive(Debug, Clone)]
pub struct Reminder {
    pub id: i64,
    pub task_id: i64,
    pub remind_at_local: String,
    pub remind_at: String,
    pub rrule: Option<String>,
    pub rrule_until: Option<String>,
    pub rrule_count: Option<i64>,
    pub channel: String,
    pub note: Option<String>,
    pub status: String,
}

/// User-tunable rest-break settings.
#[derive(Debug, Clone)]
pub struct BreakSettings {
    pub enabled: bool,
    /// Minutes of continuous tracked work before a break is suggested.
    pub work_min: i64,
    /// How long a break runs.
    pub duration_min: i64,
    /// How long "Snooze" defers the prompt.
    pub snooze_min: i64,
}

#[derive(Debug, Clone)]
pub struct DayPlan {
    pub date: String,
    pub intentions: String,
    pub available_minutes: i64,
    pub stop_time: Option<String>,
}

/// A span of automatic focus capture awaiting a label.
#[derive(Debug, Clone)]
pub struct FocusSpan {
    pub id: i64,
    pub app_id: Option<String>,
    pub title: Option<String>,
    pub start_at: String,
    pub minutes: i64,
}

#[derive(Debug, Clone)]
pub struct CategoryStat {
    pub name: String,
    pub color: String,
    pub minutes: i64,
}

/// Time spent in one application.
#[derive(Debug, Clone)]
pub struct AppStat {
    pub app: String,
    pub minutes: i64,
}

/// One kind of pause recorded against a task, grouped by its reason; `auto`
/// marks reasons the app set itself.
#[derive(Debug, Clone)]
pub struct PauseStat {
    pub reason: String,
    pub count: i64,
    pub auto: bool,
}

/// A task (or the synthetic "Untracked" row) with its tracked time, its apps
/// and its pauses.
#[derive(Debug, Clone)]
pub struct PlannedActual {
    pub title: String,
    pub color: String,
    pub category: String,
    pub body_md: String,
    pub estimate_min: i64,
    pub tracked_min: i64,
    pub done: bool,
    pub untracked: bool,
    pub apps: Vec<AppStat>,
    pub pauses: Vec<PauseStat>,
}

/// One column of the activity chart.
#[derive(Debug, Clone)]
pub struct Bar {
    pub label: String,
    pub focus_min: i64,
    pub untracked_min: i64,
    pub away_min: i64,
    pub top: String,
    pub top_color: String,
}

/// One session on the day timeline, in minutes from local midnight.
#[derive(Debug, Clone)]
pub struct TimelineSpan {
    pub start_min: i64,
    pub end_min: i64,
    /// "focus", "untracked" or "away".
    pub kind: String,
    pub label: String,
    pub color: String,
}

#[derive(Debug, Clone)]
pub struct Dashboard {
    pub period: String,
    pub start_date: String,
    pub end_date: String,
    pub total_tracked_min: i64,
    pub focus_min: i64,
    pub distraction_min: i64,
    pub away_min: i64,
    pub completed: i64,
    pub total_tasks: i64,
    pub by_category: Vec<CategoryStat>,
    pub by_app: Vec<AppStat>,
    pub planned_actual: Vec<PlannedActual>,
    pub bars: Vec<Bar>,
    pub timeline: Vec<TimelineSpan>,
    pub day_end_min: i64,
}

} // verus!
