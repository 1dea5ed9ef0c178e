use achieve::email::{
    app_name, bar_row, build_due_payload, build_payload, day_of_week, due_offset, esc, fmt_min, is_due,
    kpi, pause_label, pause_summary, pretty_date, pretty_date_fits, render_fits, render_html,
    section_title, seed_from_env, should_send, should_send_on_start, task_block, EmailEnv,
    EmailSettings,
};
use achieve::model::{AppStat, CategoryStat, Dashboard, PauseStat, PlannedActual};

fn s(x: &str) -> String {
    x.to_string()
}

fn settings() -> EmailSettings {
    EmailSettings {
        api_key: Some(s("key-123")),
        from: None,
        from_name: None,
        reply_to: None,
        to: Some(s("me@example.com")),
        hour: Some(s("8")),
        offset: None,
        enabled: Some(s("1")),
        last_sent: None,
    }
}

fn pause(reason: &str, count: i64, auto: bool) -> PauseStat {
    PauseStat { reason: s(reason), count, auto }
}

fn task(title: &str, spent: i64) -> PlannedActual {
    PlannedActual {
        title: s(title),
        color: s("#ff0000"),
        category: s("Work"),
        body_md: String::new(),
        estimate_min: 60,
        tracked_min: spent,
        done: false,
        untracked: false,
        apps: vec![],
        pauses: vec![],
    }
}

fn dashboard() -> Dashboard {
    Dashboard {
        period: s("day"),
        start_date: s("2026-06-30"),
        end_date: s("2026-06-30"),
        total_tracked_min: 125,
        focus_min: 30,
        distraction_min: 10,
        away_min: 0,
        completed: 2,
        total_tasks: 5,
        by_category: vec![
            CategoryStat { name: s("Work"), color: s("#ff0000"), minutes: 90 },
            CategoryStat { name: s("Play"), color: s("  "), minutes: 30 },
        ],
        by_app: vec![],
        planned_actual: vec![task("Write <report>", 45), task("Untracked", 0)],
        bars: vec![],
        timeline: vec![],
        day_end_min: 1440,
    }
}

#[test]
fn fmt_min_formats_hours_and_minutes() {
    assert_eq!(fmt_min(0), "0m");
    assert_eq!(fmt_min(45), "45m");
    assert_eq!(fmt_min(60), "1h");
    assert_eq!(fmt_min(65), "1h 5m");
    assert_eq!(fmt_min(125), "2h 5m");
    assert_eq!(fmt_min(-5), "0m");
}

#[test]
fn day_of_week_uses_sunday_zero() {
    assert_eq!(day_of_week(2026, 6, 30), 2);
    assert_eq!(day_of_week(2000, 1, 1), 6);
    assert_eq!(day_of_week(2024, 2, 29), 4);
}

#[test]
fn pretty_date_spells_out_the_day() {
    assert_eq!(pretty_date("2026-06-30"), "Tuesday, June 30");
    assert_eq!(pretty_date("2026-13-05"), "Saturday, December 5");
    assert_eq!(pretty_date("yesterday"), "yesterday");
    assert_eq!(pretty_date("2026-06"), "2026-06");
    assert!(pretty_date_fits("2026-06-30"));
    assert!(!pretty_date_fits("9223372036854775807-01-01"));
}

#[test]
fn pause_labels_name_automatic_reasons() {
    assert_eq!(pause_label("auto-idle", true), "Went idle");
    assert_eq!(pause_label("capped-runaway", true), "Capped runaway timer");
    assert_eq!(pause_label("auto-idle", false), "auto-idle");
    assert_eq!(pause_label("lunch", true), "lunch");
}

#[test]
fn pause_summary_counts_and_lists() {
    assert_eq!(pause_summary(&vec![]), None);
    assert_eq!(
        pause_summary(&vec![pause("going for dinner", 1, false), pause("reached-estimate", 6, true)]),
        Some(s("7 pauses · going for dinner, Reached estimate ×6"))
    );
    assert_eq!(pause_summary(&vec![pause("a<b", 1, false)]), Some(s("1 pause · a&lt;b")));
}

#[test]
fn app_names_are_friendly() {
    assert_eq!(app_name("org.mozilla.firefox"), "Firefox");
    assert_eq!(app_name("  Code  "), "VS Code");
    assert_eq!(app_name("FIREFOX"), "Firefox");
    assert_eq!(app_name("my-cool_tool"), "My Cool Tool");
    assert_eq!(app_name("com.example.some-app"), "Some App");
    assert_eq!(app_name(""), "");
}

#[test]
fn esc_escapes_markup() {
    assert_eq!(esc("<a href=\"x\">&</a>"), "&lt;a href=&quot;x&quot;&gt;&amp;&lt;/a&gt;");
    assert_eq!(esc("plain"), "plain");
}

#[test]
fn kpi_and_title_escape_their_text() {
    let mut out = String::new();
    kpi(&mut out, "A<B", "5", "#000");
    assert!(out.contains("A&lt;B"));
    assert!(out.contains("color:#000;"));
    let mut t = String::from("x");
    section_title(&mut t, "Tasks & more");
    assert!(t.starts_with("x<tr>"));
    assert!(t.contains("Tasks &amp; more</div>"));
}

#[test]
fn bar_row_fill_has_a_floor() {
    let mut out = String::new();
    bar_row(&mut out, "Idle", "#111", 0, 100, 100, true);
    assert!(out.contains("width:2%"));
    assert!(out.contains(">0%</td>"));
    assert!(out.contains("width:8px"));
    let mut full = String::new();
    bar_row(&mut full, "Work", "#111", 90, 90, 120, false);
    assert!(full.contains("width:100%"));
    assert!(full.contains(">75%</td>"));
    assert!(full.contains(">1h 30m</td>"));
}

#[test]
fn task_block_shows_badges_apps_and_pauses() {
    let mut p = task("Plan", 30);
    p.done = true;
    p.apps = vec![AppStat { app: s("firefox"), minutes: 20 }, AppStat { app: s("kitty"), minutes: 10 }];
    p.pauses = vec![pause("auto-idle", 2, true)];
    let mut out = String::new();
    task_block(&mut out, &p);
    assert!(out.contains(">DONE</span>"));
    assert!(out.contains(">Work</span>"));
    assert!(out.contains("30m tracked of ~1h"));
    assert!(out.contains("Firefox 20m &nbsp;·&nbsp; Kitty 10m"));
    assert!(out.contains("2 pauses · Went idle ×2"));
    assert!(out.ends_with("</div>"));
}

#[test]
fn render_html_builds_the_digest() {
    let d = dashboard();
    assert!(render_fits(&d));
    let html = render_html(&d);
    assert!(html.starts_with("<!doctype html>"));
    assert!(html.contains("Tracked 2h 5m · Focus 75% · Untracked 10m · 2/5 done"));
    assert!(html.contains("Tuesday, June 30"));
    assert!(html.contains("Where your time went"));
    assert!(html.contains("#9aa0aa"));
    assert!(html.contains("Write &lt;report&gt;"));
    assert!(!html.contains("Applications"));
    assert!(html.ends_with("</body></html>"));
}

#[test]
fn render_fits_rejects_overflowing_sums() {
    let mut d = dashboard();
    d.by_category.push(CategoryStat { name: s("Huge"), color: s("#000"), minutes: i64::MAX });
    assert!(!render_fits(&d));
}

#[test]
fn build_payload_requires_key_and_recipient() {
    let mut c = settings();
    c.api_key = Some(s("   "));
    match build_payload(&c, Ok(dashboard())) {
        Err(e) => assert_eq!(e, "no Brevo API key configured"),
        Ok(_) => panic!("expected an error"),
    }
    let mut c = settings();
    c.to = None;
    match build_payload(&c, Ok(dashboard())) {
        Err(e) => assert_eq!(e, "no recipient configured"),
        Ok(_) => panic!("expected an error"),
    }
    match build_payload(&settings(), Err(s("database is locked"))) {
        Err(e) => assert_eq!(e, "database is locked"),
        Ok(_) => panic!("expected an error"),
    }
}

#[test]
fn build_payload_fills_defaults() {
    let p = match build_payload(&settings(), Ok(dashboard())) {
        Ok(p) => p,
        Err(e) => panic!("unexpected error {e}"),
    };
    assert_eq!(p.api_key, "key-123");
    assert_eq!(p.to, "me@example.com");
    assert_eq!(p.from, "easyboard@hamidslab.com");
    assert_eq!(p.from_name, "Easyboard");
    assert_eq!(p.reply_to, "easyboard@hamidslab.com");
    assert_eq!(p.subject, "Your day · Tuesday, June 30");
    assert_eq!(p.html, render_html(&dashboard()));
    let mut c = settings();
    c.from = Some(s("a@b.c"));
    let p = build_due_payload(&c, Ok(dashboard())).unwrap();
    assert_eq!(p.reply_to, "a@b.c");
    assert!(build_due_payload(&c, Err(s("x"))).is_none());
}

#[test]
fn the_summary_is_due_once_a_day_after_the_hour() {
    let c = settings();
    assert!(!should_send(&c, 7, "2026-07-01"));
    assert!(should_send(&c, 8, "2026-07-01"));
    assert!(should_send_on_start(&c, "2026-07-01"));
    assert!(is_due(&c, true, 0, "2026-07-01"));
    let mut sent = settings();
    sent.last_sent = Some(s("2026-07-01"));
    assert!(!should_send(&sent, 12, "2026-07-01"));
    assert!(!should_send_on_start(&sent, "2026-07-01"));
    assert!(should_send(&sent, 12, "2026-07-02"));
    let mut off = settings();
    off.enabled = Some(s("0"));
    assert!(!should_send(&off, 12, "2026-07-01"));
    let mut late = settings();
    late.hour = Some(s("not a number"));
    assert!(!should_send(&late, 7, "2026-07-01"));
    assert!(should_send(&late, 8, "2026-07-01"));
}

#[test]
fn due_offset_defaults_to_yesterday() {
    let mut c = settings();
    assert_eq!(due_offset(&c), 1);
    c.offset = Some(s("0"));
    assert_eq!(due_offset(&c), 0);
    c.offset = Some(s("two"));
    assert_eq!(due_offset(&c), 1);
}

#[test]
fn seeding_from_env_trims_and_enables() {
    let empty = EmailSettings {
        api_key: None,
        from: None,
        from_name: None,
        reply_to: None,
        to: None,
        hour: None,
        offset: None,
        enabled: None,
        last_sent: None,
    };
    let env = EmailEnv {
        api_key: Some(s("  abc  ")),
        from: Some(s("   ")),
        from_name: None,
        reply_to: None,
        to: Some(s("me@x.org")),
        hour: None,
    };
    let out = seed_from_env(empty, &env);
    assert_eq!(out.api_key, Some(s("abc")));
    assert_eq!(out.from, None);
    assert_eq!(out.to, Some(s("me@x.org")));
    assert_eq!(out.hour, Some(s("8")));
    assert_eq!(out.offset, Some(s("1")));
    assert_eq!(out.enabled, Some(s("1")));

    let mut disabled = settings();
    disabled.enabled = Some(s("0"));
    disabled.hour = Some(s("9"));
    let env2 = EmailEnv { api_key: None, from: None, from_name: None, reply_to: None, to: None, hour: Some(s(" 7 ")) };
    let out2 = seed_from_env(disabled, &env2);
    assert_eq!(out2.enabled, Some(s("0")));
    assert_eq!(out2.hour, Some(s("7")));
    assert_eq!(out2.api_key, Some(s("key-123")));
}
