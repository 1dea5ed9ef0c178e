//! The engine's decisions. Each tick the background loop observes the ledger,
//! the idle flag and the window, and asks these functions what to do; the loop
//! itself performs the I/O (emitting, showing views, sounds, notifications).
//!
//! Times are milliseconds of a monotonic clock.

use vstd::prelude::*;

use crate::email::ostr;
use crate::model::{Snapshot, Task};
use crate::text::{chars_of, i64_string, str_eq};

verus! {

broadcast use vstd::string::group_string_axioms;

/// Snapshot emits to the UI are throttled to one per two seconds.
pub const EMIT_EVERY_MS: u64 = 2_000;
/// If you are active with no task selected, re-offer to start one this often.
pub const RENUDGE_AFTER_MS: u64 = 300_000;
/// On a failed daily-email send, wait this long before retrying.
pub const EMAIL_RETRY_MS: u64 = 600_000;
/// How often to check for reminders to schedule or fire.
pub const REMINDER_INTERVAL_MS: u64 = 20_000;
/// How often the at-risk check runs.
pub const RISK_CHECK_MS: u64 = 60_000;
/// At most one at-risk notification per half hour.
pub const RISK_NOTIFY_MS: u64 = 1_800_000;

/// The time since `t`, or zero when the clock reads earlier.
pub open spec fn elapsed(t: u64, now: u64) -> int {
    if now >= t { now - t } else { 0 }
}

/// Never done, or done at least `every` ago.
pub open spec fn due_after(last: Option<u64>, now: u64, every: u64) -> bool {
    match last {
        None => true,
        Some(t) => elapsed(t, now) >= every,
    }
}

fn is_due_after(last: Option<u64>, now: u64, every: u64) -> (b: bool)
    ensures
        b == due_after(last, now, every),
{
    match last {
        None => true,
        Some(t) => {
            let e: u64 = if now >= t { now - t } else { 0 };
            e >= every
        },
    }
}

/// The untracked cue's schedule: the gap (ms) before each successive beep of
/// one untracked stretch; after the last, it stays silent.
pub open spec fn cue_step_ms(i: int) -> int {
    if i == 0 { 90_000 }
    else if i == 1 { 180_000 }
    else if i == 2 { 360_000 }
    else if i == 3 { 720_000 }
    else { 1_200_000 }
}

/// The number of untracked cues in one stretch.
pub const CUE_STEPS: u64 = 5;

fn cue_step_of(i: u64) -> (ms: u64)
    requires
        i < 5,
    ensures
        ms == cue_step_ms(i as int),
{
    if i == 0 { 90_000 }
    else if i == 1 { 180_000 }
    else if i == 2 { 360_000 }
    else if i == 3 { 720_000 }
    else { 1_200_000 }
}

/// What the loop remembers between ticks.
pub struct EngineState {
    /// The first surface after launch was shown.
    pub started: bool,
    pub last_nudge: Option<u64>,
    pub was_idle: bool,
    /// The active task id last seen (`None` before the first tick).
    pub last_active_seen: Option<Option<i64>>,
    pub last_break_prompt: Option<u64>,
    /// When the current untracked stretch began.
    pub untracked_since: Option<u64>,
    /// Cues played in the current untracked stretch.
    pub untracked_cues: u64,
    /// The "break over" chime was played for this break.
    pub break_chimed_over: bool,
    pub last_emit: Option<u64>,
    pub last_risk_check: Option<u64>,
    pub last_risk_notify: Option<u64>,
    pub last_email_attempt: Option<u64>,
    pub last_reminder_check: Option<u64>,
    /// Startup catch-up for the daily summary is still armed.
    pub email_catchup: bool,
    pub current_day: String,
}

impl EngineState {
    /// The state at launch: nothing done yet, catch-up armed.
    pub fn new() -> (s: EngineState)
        ensures
            !s.started,
            s.last_nudge is None,
            !s.was_idle,
            s.last_active_seen is None,
            s.last_break_prompt is None,
            s.untracked_since is None,
            s.untracked_cues == 0,
            !s.break_chimed_over,
            s.last_emit is None,
            s.last_risk_check is None,
            s.last_risk_notify is None,
            s.last_email_attempt is None,
            s.last_reminder_check is None,
            s.email_catchup,
            s.current_day@ == Seq::<char>::empty(),
    {
        EngineState {
            started: false,
            last_nudge: None,
            was_idle: false,
            last_active_seen: None,
            last_break_prompt: None,
            untracked_since: None,
            untracked_cues: 0,
            break_chimed_over: false,
            last_emit: None,
            last_risk_check: None,
            last_risk_notify: None,
            last_email_attempt: None,
            last_reminder_check: None,
            email_catchup: true,
            current_day: String::new(),
        }
    }

    /// Whether to push the snapshot to the UI now (throttled to one per
    /// `EMIT_EVERY_MS`); records the emit.
    pub fn emit_due(&mut self, now: u64) -> (b: bool)
        ensures
            b == due_after(old(self).last_emit, now, EMIT_EVERY_MS),
            final(self).last_emit == if b { Some(now) } else { old(self).last_emit },
            final(self).last_nudge == old(self).last_nudge,
            final(self).email_catchup == old(self).email_catchup,
    {
        let b = is_due_after(self.last_emit, now, EMIT_EVERY_MS);
        if b {
            self.last_emit = Some(now);
        }
        b
    }

    /// The daily summary is wanted: scheduled and due, or due on the startup
    /// catch-up while that is still armed.
    pub fn wants_email(&self, scheduled_due: bool, catchup_due: bool) -> (b: bool)
        ensures
            b == (scheduled_due || (self.email_catchup && catchup_due)),
    {
        scheduled_due || (self.email_catchup && catchup_due)
    }

    /// One tick of the daily-summary gate. When wanted, an attempt is made at
    /// most once per `EMAIL_RETRY_MS` (returns true and records it). When
    /// nothing is due, the startup catch-up ends and the retry clock resets.
    pub fn email_step(&mut self, want: bool, now: u64) -> (attempt: bool)
        ensures
            attempt == (want && due_after(old(self).last_email_attempt, now, EMAIL_RETRY_MS)),
            final(self).last_email_attempt == if attempt {
                Some(now)
            } else if want {
                old(self).last_email_attempt
            } else {
                None
            },
            final(self).email_catchup == (want && old(self).email_catchup),
            final(self).last_nudge == old(self).last_nudge,
    {
        if want {
            let due = is_due_after(self.last_email_attempt, now, EMAIL_RETRY_MS);
            if due {
                self.last_email_attempt = Some(now);
            }
            due
        } else {
            self.email_catchup = false;
            self.last_email_attempt = None;
            false
        }
    }

    /// The summary was sent: the startup catch-up is over.
    pub fn email_sent(&mut self)
        ensures
            !final(self).email_catchup,
            final(self).last_email_attempt == old(self).last_email_attempt,
    {
        self.email_catchup = false;
    }

    /// Whether to run a reminder pass now (every `REMINDER_INTERVAL_MS`).
    pub fn reminder_due(&mut self, now: u64) -> (b: bool)
        ensures
            b == due_after(old(self).last_reminder_check, now, REMINDER_INTERVAL_MS),
            final(self).last_reminder_check == if b { Some(now) } else { old(self).last_reminder_check },
    {
        let b = is_due_after(self.last_reminder_check, now, REMINDER_INTERVAL_MS);
        if b {
            self.last_reminder_check = Some(now);
        }
        b
    }

    /// The local day changed (or this is the first tick with a day): roll it.
    pub fn day_changed(&mut self, day: &str) -> (b: bool)
        ensures
            b == (day@.len() > 0 && day@ != old(self).current_day@),
            final(self).current_day@ == if b { day@ } else { old(self).current_day@ },
    {
        let changed = chars_of(day).len() > 0 && !str_eq(day, self.current_day.as_str());
        if changed {
            self.current_day = String::from_str(day);
        }
        changed
    }

    /// An idle tick. The first idle tick of an episode with nothing playing
    /// marks the episode and asks to pause the active task (true). `playing` is
    /// only consulted before the episode is marked.
    pub fn on_idle(&mut self, playing: bool) -> (pause: bool)
        ensures
            pause == (!old(self).was_idle && !playing),
            *final(self) == (EngineState { was_idle: old(self).was_idle || pause, ..*old(self) }),
            final(self).was_idle == (old(self).was_idle || pause),
            final(self).untracked_since == old(self).untracked_since,
            final(self).untracked_cues == old(self).untracked_cues,
    {
        if !self.was_idle && !playing {
            self.was_idle = true;
            true
        } else {
            false
        }
    }

    /// A non-idle tick. Returns true when coming back from an idle episode
    /// (close the open away span); the untracked cue then starts afresh.
    pub fn on_active(&mut self) -> (returned: bool)
        ensures
            returned == old(self).was_idle,
            *final(self) == (EngineState {
                was_idle: false,
                untracked_since: if returned { None } else { old(self).untracked_since },
                untracked_cues: if returned { 0 } else { old(self).untracked_cues },
                ..*old(self)
            }),
            !final(self).was_idle,
            final(self).untracked_since == if returned { None } else { old(self).untracked_since },
            final(self).untracked_cues == if returned { 0 } else { old(self).untracked_cues },
    {
        let returned = self.was_idle;
        if returned {
            self.untracked_since = None;
            self.untracked_cues = 0;
        }
        self.was_idle = false;
        returned
    }

    /// Record the active task; true when it changed since the previous tick
    /// (not on the first), so the task list must be refreshed.
    pub fn active_changed(&mut self, active: Option<i64>) -> (b: bool)
        ensures
            b == (old(self).last_active_seen matches Some(prev) && prev != active),
            *final(self) == (EngineState { last_active_seen: Some(active), ..*old(self) }),
            final(self).last_active_seen == Some(active),
    {
        let b = match self.last_active_seen {
            Some(prev) => prev != active,
            None => false,
        };
        self.last_active_seen = Some(active);
        b
    }

    /// The first surface after launch: true once, starting the re-nudge clock.
    pub fn first_surface(&mut self, now: u64) -> (b: bool)
        ensures
            b == !old(self).started,
            *final(self) == (EngineState {
                started: true,
                last_nudge: if b { Some(now) } else { old(self).last_nudge },
                ..*old(self)
            }),
            final(self).started,
            final(self).last_nudge == if b { Some(now) } else { old(self).last_nudge },
    {
        if !self.started {
            self.started = true;
            self.last_nudge = Some(now);
            true
        } else {
            false
        }
    }

    /// While a task is actively tracking, keep resetting the re-nudge clock.
    pub fn note_tracking(&mut self, snap: &Snapshot, now: u64)
        ensures
            *final(self) == (EngineState {
                last_nudge: if snap.active_task_id is Some && !snap.active_awaiting {
                    Some(now)
                } else {
                    old(self).last_nudge
                },
                ..*old(self)
            }),
            final(self).last_nudge == if snap.active_task_id is Some && !snap.active_awaiting {
                Some(now)
            } else {
                old(self).last_nudge
            },
            final(self).untracked_cues == old(self).untracked_cues,
            final(self).untracked_since == old(self).untracked_since,
            final(self).last_break_prompt == old(self).last_break_prompt,
    {
        if snap.active_task_id.is_some() && !snap.active_awaiting {
            self.last_nudge = Some(now);
        }
    }

    /// The "break over" chime: once per break, when its time is up.
    pub fn chime_step(&mut self, on_break: bool, remaining_sec: i64) -> (chime: bool)
        ensures
            chime == (on_break && remaining_sec <= 0 && !old(self).break_chimed_over),
            *final(self) == (EngineState {
                break_chimed_over: on_break && (old(self).break_chimed_over || remaining_sec <= 0),
                ..*old(self)
            }),
            final(self).break_chimed_over == (on_break && (old(self).break_chimed_over
                || remaining_sec <= 0)),
    {
        if on_break {
            if remaining_sec <= 0 && !self.break_chimed_over {
                self.break_chimed_over = true;
                return true;
            }
        } else {
            self.break_chimed_over = false;
        }
        false
    }

    /// Surface the break view (prompt or "break over") while the window is
    /// hidden, at most once per `RENUDGE_AFTER_MS`; with nothing to show, the
    /// cadence resets.
    pub fn break_prompt_step(&mut self, due: bool, over: bool, visible: bool, now: u64) -> (show: bool)
        ensures
            show == ((due || over) && !visible && due_after(old(self).last_break_prompt, now, RENUDGE_AFTER_MS)),
            *final(self) == (EngineState {
                last_break_prompt: if show {
                    Some(now)
                } else if !due && !over {
                    None
                } else {
                    old(self).last_break_prompt
                },
                ..*old(self)
            }),
            final(self).last_break_prompt == if show {
                Some(now)
            } else if !due && !over {
                None
            } else {
                old(self).last_break_prompt
            },
            final(self).last_nudge == old(self).last_nudge,
    {
        if (due || over) && !visible {
            let d = is_due_after(self.last_break_prompt, now, RENUDGE_AFTER_MS);
            if d {
                self.last_break_prompt = Some(now);
            }
            d
        } else {
            if !due && !over {
                self.last_break_prompt = None;
            }
            false
        }
    }

    /// The untracked cue: while attention is needed (and not on a break), beep
    /// and pull the hub to the front after each step of the schedule, counted
    /// from the start of the untracked stretch; otherwise the stretch ends.
    pub fn cue_step(&mut self, needs_attention: bool, worth_surfacing: bool, on_break: bool, now: u64) -> (cue: bool)
        ensures
            ({
                let active = needs_attention && worth_surfacing && !on_break;
                let since = match old(self).untracked_since {
                    Some(t) => t,
                    None => now,
                };
                &&& cue == (active && old(self).untracked_cues < CUE_STEPS && elapsed(since, now)
                    >= cue_step_ms(old(self).untracked_cues as int))
                &&& final(self).untracked_since == if active { Some(since) } else { None }
                &&& final(self).untracked_cues == if cue {
                    old(self).untracked_cues + 1
                } else if active {
                    old(self).untracked_cues as int
                } else {
                    0
                }
                &&& final(self).last_nudge == if cue { Some(now) } else { old(self).last_nudge }
            }),
            old(self).untracked_cues >= CUE_STEPS ==> !cue,
            ({
                let active = needs_attention && worth_surfacing && !on_break;
                let since = match old(self).untracked_since {
                    Some(t) => t,
                    None => now,
                };
                *final(self) == (EngineState {
                    untracked_since: if active { Some(since) } else { None },
                    untracked_cues: if cue {
                        (old(self).untracked_cues + 1) as u64
                    } else if active {
                        old(self).untracked_cues
                    } else {
                        0
                    },
                    last_nudge: if cue { Some(now) } else { old(self).last_nudge },
                    ..*old(self)
                })
            }),
            old(self).untracked_cues <= CUE_STEPS ==> final(self).untracked_cues <= CUE_STEPS,
    {
        if needs_attention && worth_surfacing && !on_break {
            let since = match self.untracked_since {
                Some(t) => t,
                None => now,
            };
            self.untracked_since = Some(since);
            if self.untracked_cues < CUE_STEPS {
                let step = cue_step_of(self.untracked_cues);
                let e: u64 = if now >= since { now - since } else { 0 };
                if e >= step {
                    self.untracked_cues = self.untracked_cues + 1;
                    self.last_nudge = Some(now);
                    return true;
                }
            }
            false
        } else {
            self.untracked_since = None;
            self.untracked_cues = 0;
            false
        }
    }

    /// Re-offer the task hub while the window is hidden and attention is
    /// needed, at most once per `RENUDGE_AFTER_MS`.
    pub fn nudge_step(&mut self, visible: bool, needs_attention: bool, worth_surfacing: bool, now: u64) -> (show: bool)
        ensures
            show == (!visible && needs_attention && worth_surfacing && due_after(
                old(self).last_nudge,
                now,
                RENUDGE_AFTER_MS,
            )),
            final(self).last_nudge == if show { Some(now) } else { old(self).last_nudge },
            *final(self) == (EngineState { last_nudge: if show { Some(now) } else { old(self).last_nudge }, ..*old(self) }),
    {
        if !visible && needs_attention && worth_surfacing {
            let d = is_due_after(self.last_nudge, now, RENUDGE_AFTER_MS);
            if d {
                self.last_nudge = Some(now);
            }
            d
        } else {
            false
        }
    }

    /// Whether to run the at-risk check now (about once a minute).
    pub fn risk_check_due(&mut self, now: u64) -> (b: bool)
        ensures
            b == due_after(old(self).last_risk_check, now, RISK_CHECK_MS),
            *final(self) == (EngineState {
                last_risk_check: if b { Some(now) } else { old(self).last_risk_check },
                ..*old(self)
            }),
            final(self).last_risk_check == if b { Some(now) } else { old(self).last_risk_check },
            final(self).last_risk_notify == old(self).last_risk_notify,
    {
        let b = is_due_after(self.last_risk_check, now, RISK_CHECK_MS);
        if b {
            self.last_risk_check = Some(now);
        }
        b
    }

    /// Whether an at-risk notification may go out now (at most every half hour).
    pub fn risk_notify_due(&mut self, now: u64) -> (b: bool)
        ensures
            b == due_after(old(self).last_risk_notify, now, RISK_NOTIFY_MS),
            final(self).last_risk_notify == if b { Some(now) } else { old(self).last_risk_notify },
            final(self).last_risk_check == old(self).last_risk_check,
    {
        let b = is_due_after(self.last_risk_notify, now, RISK_NOTIFY_MS);
        if b {
            self.last_risk_notify = Some(now);
        }
        b
    }
}

/// The hub needs attention: no task selected, or one awaiting a decision.
pub fn needs_attention(snap: &Snapshot) -> (b: bool)
    ensures
        b == (snap.active_task_id is None || snap.active_awaiting),
{
    snap.active_task_id.is_none() || snap.active_awaiting
}

/// Worth surfacing: an awaiting decision, pending work, or time left today.
pub fn worth_surfacing(snap: &Snapshot) -> (b: bool)
    ensures
        b == (snap.active_awaiting || snap.pending > 0 || snap.minutes_left_in_day > 0),
{
    snap.active_awaiting || snap.pending > 0 || snap.minutes_left_in_day > 0
}

/// The active task reached its estimate while tracking: its id and estimate.
pub open spec fn reached_spec(snap: Snapshot) -> Option<(i64, i64)> {
    match (snap.active_task_id, snap.active_estimate_min) {
        (Some(id), Some(est)) => if est > 0 && !snap.active_awaiting && snap.active_tracked_min >= est {
            Some((id, est))
        } else {
            None
        },
        _ => None,
    }
}

/// The active task reached its estimate while tracking: its id and estimate.
pub fn reached_estimate(snap: &Snapshot) -> (out: Option<(i64, i64)>)
    ensures
        out == reached_spec(*snap),
{
    match (snap.active_task_id, snap.active_estimate_min) {
        (Some(id), Some(est)) => if est > 0 && !snap.active_awaiting && snap.active_tracked_min >= est {
            Some((id, est))
        } else {
            None
        },
        _ => None,
    }
}

/// A rest break is due: breaks on, not already on one, a task active, worked
/// long enough, and not snoozed.
pub fn due_for_break(enabled: bool, work_min: i64, snap: &Snapshot, snoozed: bool) -> (b: bool)
    ensures
        b == (enabled && !snap.on_break && snap.active_task_id is Some && snap.worked_since_break_min
            >= work_min && !snoozed),
{
    enabled && !snap.on_break && snap.active_task_id.is_some() && snap.worked_since_break_min >= work_min
        && !snoozed
}

/// The running break's time is up.
pub fn break_over(snap: &Snapshot) -> (b: bool)
    ensures
        b == (snap.on_break && snap.break_remaining_sec <= 0),
{
    snap.on_break && snap.break_remaining_sec <= 0
}

/// The day is over-committed: time is left but no buffer remains.
pub fn over_committed(snap: &Snapshot) -> (b: bool)
    requires
        i64::MIN <= snap.minutes_left_in_day - snap.minutes_committed <= i64::MAX,
    ensures
        b == (snap.minutes_left_in_day > 0 && snap.minutes_left_in_day - snap.minutes_committed <= 0),
{
    let buffer = snap.minutes_left_in_day - snap.minutes_committed;
    snap.minutes_left_in_day > 0 && buffer <= 0
}

/// How long the loop sleeps: a second during a break (so the "break over"
/// cue lands promptly), otherwise the regular tick.
pub fn tick_sleep_ms(on_break: bool) -> (ms: u64)
    ensures
        ms == if on_break { 1_000u64 } else { 20_000u64 },
{
    if on_break { 1_000 } else { 20_000 }
}

/// A task still to be worked on.
pub open spec fn open_status(s: Seq<char>) -> bool {
    s == "pending"@ || s == "paused"@ || s == "reopened"@ || s == "in_progress"@ || s == "awaiting"@
}

pub open spec fn est_of(t: Task) -> int {
    match t.estimate_min {
        Some(e) => e as int,
        None => 0,
    }
}

/// An open task barely started: under a tenth of a real estimate tracked.
pub open spec fn at_risk_candidate(t: Task) -> bool {
    open_status(t.status@) && est_of(t) > 0 && t.tracked_min * 10 < est_of(t)
}

/// The tracked-time check of a candidate can be computed without overflow.
pub open spec fn risk_fits(ts: Seq<Task>) -> bool {
    forall|i: int|
        0 <= i < ts.len() && open_status(#[trigger] ts[i].status@) && est_of(ts[i]) > 0 ==> i64::MIN
            <= ts[i].tracked_min * 10 <= i64::MAX
}

/// The candidate with the largest estimate (the last such one on a tie).
pub open spec fn pick_spec(ts: Seq<Task>) -> Option<Task>
    decreases ts.len(),
{
    if ts.len() == 0 {
        None
    } else {
        let r = pick_spec(ts.drop_last());
        let t = ts.last();
        if at_risk_candidate(t) {
            match r {
                None => Some(t),
                Some(b) => if est_of(t) >= est_of(b) { Some(t) } else { r },
            }
        } else {
            r
        }
    }
}

/// The task most at risk: an open task barely started, with the largest
/// estimate; its title and estimate.
pub fn pick_at_risk(tasks: &Vec<Task>) -> (out: Option<(String, i64)>)
    requires
        risk_fits(tasks@),
    ensures
        match out {
            Some((title, est)) => pick_spec(tasks@) matches Some(t) && title@ == t.title@ && est
                == est_of(t),
            None => pick_spec(tasks@) is None,
        },
{
    let mut best: Option<usize> = None;
    let mut i: usize = 0;
    while i < tasks.len()
        invariant
            i <= tasks.len(),
            risk_fits(tasks@),
            match best {
                Some(b) => b < i && pick_spec(tasks@.take(i as int)) == Some(tasks@[b as int]),
                None => pick_spec(tasks@.take(i as int)) is None,
            },
        decreases tasks.len() - i,
    {
        let t = &tasks[i];
        proof {
            assert(tasks@.take(i + 1).drop_last() =~= tasks@.take(i as int));
            assert(tasks@.take(i + 1).last() == tasks@[i as int]);
        }
        let s = t.status.as_str();
        let open = str_eq(s, "pending") || str_eq(s, "paused") || str_eq(s, "reopened") || str_eq(
            s,
            "in_progress",
        ) || str_eq(s, "awaiting");
        let est: i64 = match t.estimate_min {
            Some(e) => e,
            None => 0,
        };
        if open && est > 0 && t.tracked_min * 10 < est {
            match best {
                None => {
                    best = Some(i);
                },
                Some(b) => {
                    let be: i64 = match tasks[b].estimate_min {
                        Some(e) => e,
                        None => 0,
                    };
                    if est >= be {
                        best = Some(i);
                    }
                },
            }
        }
        i = i + 1;
    }
    proof {
        assert(tasks@.take(tasks.len() as int) =~= tasks@);
    }
    match best {
        Some(b) => {
            let est: i64 = match tasks[b].estimate_min {
                Some(e) => e,
                None => 0,
            };
            Some((tasks[b].title.clone(), est))
        },
        None => None,
    }
}

/// "~2h planned" (whole hours) or "~45m planned".
pub open spec fn plan_phrase(est: int) -> Seq<char> {
    if est / 60 >= 1 {
        "~"@ + crate::text::decimal(est / 60) + "h planned"@
    } else {
        "~"@ + crate::text::decimal(est) + "m planned"@
    }
}

/// The at-risk notification: its summary and body.
pub fn risk_message(title: &str, est: i64) -> (out: (String, String))
    requires
        est > 0,
    ensures
        out.0@ == "A task is slipping"@,
        out.1@ == "\u{201c}"@ + title@ + "\u{201d} is barely started ("@ + plan_phrase(est as int)
            + ") and today's buffer is gone. Time to switch?"@,
{
    let est_h: i64 = est / 60;
    let mut plan = String::from_str("~");
    if est_h >= 1 {
        plan.append(i64_string(est_h).as_str());
        plan.append("h planned");
    } else {
        plan.append(i64_string(est).as_str());
        plan.append("m planned");
    }
    let mut body = String::from_str("\u{201c}");
    body.append(title);
    body.append("\u{201d} is barely started (");
    body.append(plan.as_str());
    body.append(") and today's buffer is gone. Time to switch?");
    (String::from_str("A task is slipping"), body)
}


/// What the loop observed this tick, besides the snapshot.
#[derive(Clone, Copy, Debug)]
pub struct TickInput {
    /// The idle flag is raised (no keyboard or mouse input for a while).
    pub idle: bool,
    /// Media is playing (asked only on an idle tick of a new episode).
    pub playing: bool,
    /// The main window is visible.
    pub visible: bool,
    /// A rest break is due (see `due_for_break`).
    pub due_for_break: bool,
    /// Sounds are muted.
    pub sound_muted: bool,
    /// The monotonic clock, in milliseconds.
    pub now: u64,
}

/// What the loop does this tick, in this order.
#[derive(Clone, Copy, Debug)]
pub struct TickActions {
    /// Pause the active task for idleness (and book the away time).
    pub pause_for_idle: bool,
    /// Close the open away span: the user came back.
    pub close_away: bool,
    /// Tell the task list the active task changed.
    pub tasks_changed: bool,
    /// Show the start view (the first surface after launch).
    pub show_start_view: bool,
    /// The task to pause at its estimate: its id and the estimate in minutes.
    pub stop_at_estimate: Option<(i64, i64)>,
    /// Show the hub after stopping at the estimate.
    pub nudge_after_estimate: bool,
    /// Play the "break over" chime.
    pub chime: bool,
    /// Show the break view.
    pub show_break: bool,
    /// Play the untracked warning sound.
    pub cue_sound: bool,
    /// Pull the hub to the front for the untracked cue.
    pub cue_front: bool,
    /// Show the hub (re-nudge).
    pub show_nudge: bool,
    /// Look for a slipping task (over-committed day).
    pub check_risk: bool,
    /// How long to sleep before the next tick.
    pub sleep_ms: u64,
}

/// Nothing to do but sleep.
pub open spec fn quiet_spec(sleep_ms: u64) -> TickActions {
    TickActions {
        pause_for_idle: false,
        close_away: false,
        tasks_changed: false,
        show_start_view: false,
        stop_at_estimate: None,
        nudge_after_estimate: false,
        chime: false,
        show_break: false,
        cue_sound: false,
        cue_front: false,
        show_nudge: false,
        check_risk: false,
        sleep_ms,
    }
}

/// Nothing is shown, played or sent.
pub open spec fn silent(a: TickActions) -> bool {
    &&& !a.show_start_view
    &&& a.stop_at_estimate is None
    &&& !a.nudge_after_estimate
    &&& !a.chime
    &&& !a.show_break
    &&& !a.cue_sound
    &&& !a.cue_front
    &&& !a.show_nudge
    &&& !a.check_risk
}

fn quiet(sleep_ms: u64) -> (a: TickActions)
    ensures
        a == quiet_spec(sleep_ms),
{
    TickActions {
        pause_for_idle: false,
        close_away: false,
        tasks_changed: false,
        show_start_view: false,
        stop_at_estimate: None,
        nudge_after_estimate: false,
        chime: false,
        show_break: false,
        cue_sound: false,
        cue_front: false,
        show_nudge: false,
        check_risk: false,
        sleep_ms,
    }
}

/// One tick of the loop after the day's bookkeeping: the next state and the
/// actions. While idle it only pauses (once per episode, unless media plays)
/// and sleeps; on return it closes the away span; the first active tick shows
/// the start view and does nothing else; after that come the estimate stop, the
/// break chime and prompt, the untracked cue, the re-nudge and the risk check.
pub open spec fn tick_spec(s: EngineState, i: TickInput, snap: Snapshot) -> (EngineState, TickActions) {
    if i.idle {
        let pause = !s.was_idle && !i.playing;
        (
            EngineState { was_idle: s.was_idle || pause, ..s },
            TickActions { pause_for_idle: pause, ..quiet_spec(20_000) },
        )
    } else {
        let returned = s.was_idle;
        let changed = s.last_active_seen matches Some(prev) && prev != snap.active_task_id;
        let s1 = EngineState {
            was_idle: false,
            untracked_since: if returned { None } else { s.untracked_since },
            untracked_cues: if returned { 0 } else { s.untracked_cues },
            last_active_seen: Some(snap.active_task_id),
            ..s
        };
        let base = TickActions { close_away: returned, tasks_changed: changed, ..quiet_spec(20_000) };
        if !s1.started {
            (
                EngineState { started: true, last_nudge: Some(i.now), ..s1 },
                TickActions { show_start_view: true, ..base },
            )
        } else {
            let tracking = snap.active_task_id is Some && !snap.active_awaiting;
            let nudge0 = if tracking { Some(i.now) } else { s1.last_nudge };
            let reached = reached_spec(snap);
            let over = snap.on_break && snap.break_remaining_sec <= 0;
            let chime = over && !s1.break_chimed_over;
            let chimed = snap.on_break && (s1.break_chimed_over || snap.break_remaining_sec <= 0);
            let show_break = (i.due_for_break || over) && !i.visible && due_after(
                s1.last_break_prompt,
                i.now,
                RENUDGE_AFTER_MS,
            );
            let prompt = if show_break {
                Some(i.now)
            } else if !i.due_for_break && !over {
                None
            } else {
                s1.last_break_prompt
            };
            let needs = snap.active_task_id is None || snap.active_awaiting;
            let worth = snap.active_awaiting || snap.pending > 0 || snap.minutes_left_in_day > 0;
            let active = needs && worth && !snap.on_break;
            let since = match s1.untracked_since {
                Some(t) => t,
                None => i.now,
            };
            let cue = active && s1.untracked_cues < CUE_STEPS && elapsed(since, i.now) >= cue_step_ms(
                s1.untracked_cues as int,
            );
            let cues: u64 = if cue {
                (s1.untracked_cues + 1) as u64
            } else if active {
                s1.untracked_cues
            } else {
                0
            };
            let nudge1 = if cue { Some(i.now) } else { nudge0 };
            let show_nudge = !i.visible && needs && worth && due_after(nudge1, i.now, RENUDGE_AFTER_MS);
            let nudge2 = if show_nudge { Some(i.now) } else { nudge1 };
            let rc = due_after(s1.last_risk_check, i.now, RISK_CHECK_MS);
            let buffer = snap.minutes_left_in_day - snap.minutes_committed;
            let risk = rc && i64::MIN <= buffer <= i64::MAX && snap.minutes_left_in_day > 0 && buffer <= 0;
            (
                EngineState {
                    last_nudge: nudge2,
                    break_chimed_over: chimed,
                    last_break_prompt: prompt,
                    untracked_since: if active { Some(since) } else { None },
                    untracked_cues: cues,
                    last_risk_check: if rc { Some(i.now) } else { s1.last_risk_check },
                    ..s1
                },
                TickActions {
                    stop_at_estimate: reached,
                    nudge_after_estimate: reached is Some && !i.visible,
                    chime,
                    show_break,
                    cue_sound: cue && !i.sound_muted,
                    cue_front: cue,
                    show_nudge,
                    check_risk: risk,
                    sleep_ms: if snap.on_break { 1_000 } else { 20_000 },
                    ..base
                },
            )
        }
    }
}

impl EngineState {
    /// Run one tick: update the state and say what to do.
    pub fn tick(&mut self, inp: &TickInput, snap: &Snapshot) -> (out: TickActions)
        ensures
            (*final(self), out) == tick_spec(*old(self), *inp, *snap),
            inp.sound_muted ==> !out.cue_sound,
            out.cue_sound ==> out.cue_front,
    {
        if inp.idle {
            let pause = self.on_idle(inp.playing);
            let mut a = quiet(tick_sleep_ms(false));
            a.pause_for_idle = pause;
            return a;
        }
        let returned = self.on_active();
        let changed = self.active_changed(snap.active_task_id);
        let mut a = quiet(tick_sleep_ms(false));
        a.close_away = returned;
        a.tasks_changed = changed;
        if self.first_surface(inp.now) {
            a.show_start_view = true;
            return a;
        }
        self.note_tracking(snap, inp.now);
        let reached = reached_estimate(snap);
        let chime = self.chime_step(snap.on_break, snap.break_remaining_sec);
        let over = break_over(snap);
        let show_break = self.break_prompt_step(inp.due_for_break, over, inp.visible, inp.now);
        let needs = needs_attention(snap);
        let worth = worth_surfacing(snap);
        let cue = self.cue_step(needs, worth, snap.on_break, inp.now);
        let show_nudge = self.nudge_step(inp.visible, needs, worth, inp.now);
        let rc = self.risk_check_due(inp.now);
        let risk = rc && match snap.minutes_left_in_day.checked_sub(snap.minutes_committed) {
            Some(_) => over_committed(snap),
            None => false,
        };
        a.stop_at_estimate = reached;
        a.nudge_after_estimate = reached.is_some() && !inp.visible;
        a.chime = chime;
        a.show_break = show_break;
        a.cue_sound = cue && !inp.sound_muted;
        a.cue_front = cue;
        a.show_nudge = show_nudge;
        a.check_risk = risk;
        a.sleep_ms = tick_sleep_ms(snap.on_break);
        a
    }
}

/// The state and actions of a run of ticks.
pub open spec fn run_spec(s: EngineState, ins: Seq<(TickInput, Snapshot)>) -> (EngineState, Seq<TickActions>)
    decreases ins.len(),
{
    if ins.len() == 0 {
        (s, Seq::empty())
    } else {
        let (s1, a) = tick_spec(s, ins[0].0, ins[0].1);
        let (s2, rest) = run_spec(s1, ins.drop_first());
        (s2, seq![a] + rest)
    }
}

/// While the idle flag stays up, nothing is shown, played or sent, and the
/// active task is paused at most once: on the first tick with nothing playing.
/// An episode already marked is not paused again.
pub proof fn law_idle_episode_is_quiet(s: EngineState, ins: Seq<(TickInput, Snapshot)>)
    requires
        forall|k: int| 0 <= k < ins.len() ==> (#[trigger] ins[k]).0.idle,
    ensures
        ({
            let (s2, acts) = run_spec(s, ins);
            &&& acts.len() == ins.len()
            &&& forall|k: int| 0 <= k < acts.len() ==> silent(#[trigger] acts[k])
            &&& forall|k: int| 0 <= k < acts.len() ==> !(#[trigger] acts[k]).close_away
            &&& forall|j: int, k: int| 0 <= j < k < acts.len() && (#[trigger] acts[j]).pause_for_idle
                ==> !(#[trigger] acts[k]).pause_for_idle
            &&& s.was_idle ==> forall|k: int| 0 <= k < acts.len() ==> !(#[trigger] acts[k]).pause_for_idle
            &&& (ins.len() > 0 && !s.was_idle && !ins[0].0.playing) ==> acts[0].pause_for_idle
            &&& (s.was_idle || exists|k: int| 0 <= k < acts.len() && (#[trigger] acts[k]).pause_for_idle)
                ==> s2.was_idle
        }),
    decreases ins.len(),
{
    if ins.len() > 0 {
        let (s1, a) = tick_spec(s, ins[0].0, ins[0].1);
        let rest_in = ins.drop_first();
        assert forall|k: int| 0 <= k < rest_in.len() implies (#[trigger] rest_in[k]).0.idle by {
            assert(rest_in[k] == ins[k + 1]);
        }
        law_idle_episode_is_quiet(s1, rest_in);
        let (s2, rest) = run_spec(s1, rest_in);
        let acts = seq![a] + rest;
        assert(run_spec(s, ins) == (s2, acts));
        assert forall|k: int| 0 < k < acts.len() implies #[trigger] acts[k] == rest[k - 1] by {}
        if exists|k: int| 0 <= k < acts.len() && (#[trigger] acts[k]).pause_for_idle {
            let k = choose|k: int| 0 <= k < acts.len() && (#[trigger] acts[k]).pause_for_idle;
            if k > 0 {
                assert(rest[k - 1].pause_for_idle);
            }
        }
    }
}

/// With sounds muted a tick never plays the untracked warning, and the warning
/// only ever sounds together with pulling the hub to the front.
pub proof fn law_muted_cue_is_silent(s: EngineState, i: TickInput, snap: Snapshot)
    ensures
        ({
            let (s2, a) = tick_spec(s, i, snap);
            &&& i.sound_muted ==> !a.cue_sound
            &&& a.cue_sound ==> a.cue_front
            &&& (a.cue_front && !i.sound_muted) ==> a.cue_sound
        }),
{
}

/// The first tick after an idle episode closes the open away span, and the
/// episode is over.
pub proof fn law_return_closes_away(s: EngineState, i: TickInput, snap: Snapshot)
    requires
        !i.idle,
    ensures
        ({
            let (s2, a) = tick_spec(s, i, snap);
            &&& a.close_away == s.was_idle
            &&& !a.pause_for_idle
            &&& !s2.was_idle
        }),
{
}

} // verus!
