use achieve::dashboard::{
    apps_of, build_timeline, category_breakdown, category_stat, date_modifier, day_bar_label, day_bars,
    day_end_min, hour_buckets, is_auto_reason, make_bar, month_day_label, normalize_period, pauses_of,
    pick_top, planned_row, timeline_span, top_apps, top_by_hour, week_back_days, with_untracked_row,
};
use achieve::model::{AppStat, CategoryStat, PauseStat, TimelineSpan};

fn s(x: &str) -> String {
    x.to_string()
}

fn app(name: &str, minutes: i64) -> AppStat {
    AppStat { app: s(name), minutes }
}

fn span(start: i64, end: i64, kind: &str, color: &str) -> TimelineSpan {
    TimelineSpan { start_min: start, end_min: end, kind: s(kind), label: s(kind), color: s(color) }
}

#[test]
fn periods_and_dates() {
    assert_eq!(normalize_period("week"), "week");
    assert_eq!(normalize_period("month"), "month");
    assert_eq!(normalize_period("year"), "day");
    // Today is a Wednesday (3) and weeks start on Monday (1).
    assert_eq!(week_back_days(3, 1, 0), 2);
    assert_eq!(week_back_days(0, 1, 1), 13);
    assert_eq!(date_modifier(true, 2, "months"), "-2 months");
    assert_eq!(date_modifier(false, 5, "days"), "+5 days");
    assert_eq!(month_day_label("2026-07-05"), "5");
    assert_eq!(month_day_label("2026-07-10"), "10");
    assert_eq!(day_bar_label(true, 1, "2026-07-06"), "Mon");
    assert_eq!(day_bar_label(false, 1, "2026-07-06"), "6");
}

#[test]
fn bars_pick_their_dominant_label() {
    assert_eq!(pick_top(Some((s("Work"), s("#f00"), 50)), 20, 10), (s("Work"), s("#f00")));
    assert_eq!(pick_top(Some((s("Work"), s("#f00"), 10)), 20, 5), (s("Untracked"), s("#9aa0aa")));
    assert_eq!(pick_top(None, 0, 30), (s("Away"), s("#c3c7cf")));
    assert_eq!(pick_top(None, 0, 0), (s(""), s("")));
    let b = make_bar(s("Tue"), 40, 5, 0, Some((s("Work"), s("#f00"), 40)));
    assert_eq!((b.label.as_str(), b.focus_min, b.top.as_str()), ("Tue", 40, "Work"));
}

#[test]
fn hourly_buckets_and_day_bars() {
    let fh = hour_buckets(&vec![(9, 30), (10, 45), (25, 10), (11, -5)]);
    assert_eq!(fh.len(), 24);
    assert_eq!((fh[9], fh[10], fh[11]), (30, 45, 0));
    let uh = hour_buckets(&vec![(20, 15)]);
    let ah = hour_buckets(&vec![]);
    let tops = top_by_hour(&vec![(9, s("Work"), s("#f00"), 20), (9, s("Play"), s("#0f0"), 25)]);
    assert_eq!(tops[9], Some((s("Play"), s("#0f0"), 25)));
    let bars = day_bars(&fh, &uh, &ah, &tops, Some("18:00"));
    // The stop time ends the axis at 17:00's bucket, extended to the 20:00 activity.
    assert_eq!(bars.len(), 21);
    assert_eq!(bars[9].top, "Play");
    assert_eq!(bars[20].top, "Untracked");
    assert_eq!(day_bars(&ah, &ah, &ah, &top_by_hour(&vec![]), None).len(), 24);
}

#[test]
fn timeline_merges_close_blocks() {
    let raw = vec![
        span(600, 660, "focus", "#f00"),
        span(540, 590, "untracked", "#e6a23c"),
        span(661, 700, "focus", "#f00"),
        span(800, 800, "away", "#9aa0aa"),
    ];
    let t = build_timeline(raw);
    assert_eq!(t.len(), 2);
    assert_eq!((t[0].start_min, t[0].end_min), (540, 590));
    assert_eq!((t[1].start_min, t[1].end_min), (600, 700));
    assert_eq!(day_end_min(Some("17:00"), &t), 1020);
    assert_eq!(day_end_min(None, &vec![span(1200, 1300, "focus", "#f00")]), 1300);
    let sp = timeline_span(1430, 30, s("focus"), s("x"), s("#000"));
    assert_eq!((sp.start_min, sp.end_min), (1430, 1440));
}

#[test]
fn categories_and_apps() {
    let c = category_stat(None, None, 12);
    assert_eq!((c.name.as_str(), c.color.as_str()), ("Uncategorized", "#9aa0aa"));
    let cats = category_breakdown(
        vec![CategoryStat { name: s("Work"), color: s("#f00"), minutes: 50 }],
        70,
        20,
    );
    let names: Vec<&str> = cats.iter().map(|c| c.name.as_str()).collect();
    assert_eq!(names, vec!["Untracked", "Work", "Away"]);
    let top = top_apps(vec![app("a", 1), app("b", 9), app("c", 5), app("d", 5), app("e", 2), app("f", 3), app("g", 8)]);
    let names: Vec<&str> = top.iter().map(|a| a.app.as_str()).collect();
    assert_eq!(names, vec!["b", "g", "c", "d", "f", "e"]);
    let rows = vec![(Some(1), app("x", 5)), (None, app("y", 3)), (Some(1), app("z", 7))];
    assert_eq!(apps_of(&rows, Some(1)).len(), 2);
    assert_eq!(apps_of(&rows, None)[0].app, "y");
}

#[test]
fn pauses_put_user_notes_first() {
    assert!(is_auto_reason("auto-idle"));
    assert!(!is_auto_reason("lunch"));
    let rows = vec![
        (Some(1), s("auto-idle"), 4),
        (Some(1), s("lunch"), 2),
        (Some(2), s("call"), 1),
        (Some(1), s("reached-estimate"), 1),
        (Some(1), s("errand"), 1),
    ];
    let p: Vec<PauseStat> = pauses_of(&rows, 1);
    let reasons: Vec<&str> = p.iter().map(|x| x.reason.as_str()).collect();
    assert_eq!(reasons, vec!["lunch", "errand", "auto-idle", "reached-estimate"]);
    assert!(!p[0].auto && p[2].auto);
}

#[test]
fn task_rows_and_the_untracked_row() {
    let r = planned_row(s("Write"), s("#f00"), s("Work"), s(""), 60, false, 45, vec![app("a", 1), app("b", 9)], vec![]);
    assert_eq!(r.apps[0].app, "b");
    assert!(!r.untracked);
    let rows = with_untracked_row(vec![r], 90, vec![app("kitty", 90)]);
    assert_eq!(rows.len(), 2);
    assert_eq!(rows[0].title, "Untracked");
    assert!(rows[0].untracked);
    assert_eq!(rows[1].title, "Write");
    assert_eq!(with_untracked_row(vec![], 0, vec![]).len(), 0);
}
