use achieve::autostart::{autostart_entry, autostart_paths};
use achieve::desktop::{float_rule_update, niri_config_path};
use achieve::niri::{detect_compositor, on_niri, parse_niri_event, Compositor, FocusTracker, NiriEvent, NiriWindow, WindowInfo};
use achieve::window::{
    break_lock, focused_output_name, other_output, output_names, routed_view, window_id_by_title, window_id_in,
};
use achieve::dashboard::dashboard_window;

fn win(id: u64, app: &str, title: &str, focused: bool) -> NiriWindow {
    NiriWindow { id: Some(id), app_id: Some(app.to_string()), title: Some(title.to_string()), is_focused: focused }
}

fn app_of(r: &Option<Option<WindowInfo>>) -> Option<Option<String>> {
    match r {
        Some(Some(i)) => Some(i.app_id.clone()),
        Some(None) => Some(None),
        None => None,
    }
}

#[test]
fn compositor_detection() {
    assert_eq!(detect_compositor("niri", false, false, false), Compositor::Niri);
    assert_eq!(detect_compositor("NIRI:GNOME", false, true, false), Compositor::Niri);
    assert_eq!(detect_compositor("", true, false, false), Compositor::Niri);
    assert_eq!(detect_compositor("sway", false, true, true), Compositor::Sway);
    assert_eq!(detect_compositor("Hyprland", false, false, true), Compositor::Hyprland);
    assert_eq!(detect_compositor("GNOME", false, false, false), Compositor::Other);
    assert!(on_niri(Some("Niri"), false));
    assert!(!on_niri(None, false));
    assert!(on_niri(None, true));
}

#[test]
fn focus_tracker_follows_the_stream() {
    let mut t = FocusTracker::new();
    let r = t.handle(&NiriEvent::WindowsChanged(vec![win(1, "firefox", "Docs", false), win(2, "kitty", "sh", true)]));
    assert_eq!(app_of(&r), Some(Some("kitty".to_string())));
    assert_eq!(t.focused, Some(2));

    // Reopening the focused window does not record again.
    let r = t.handle(&NiriEvent::WindowOpenedOrChanged(win(2, "kitty", "vim", true)));
    assert!(r.is_none());

    let r = t.handle(&NiriEvent::WindowOpenedOrChanged(win(3, "code", "main.rs", true)));
    assert_eq!(app_of(&r), Some(Some("code".to_string())));
    assert_eq!(t.focused, Some(3));

    let r = t.handle(&NiriEvent::WindowFocusChanged(Some(1)));
    assert_eq!(app_of(&r), Some(Some("firefox".to_string())));

    let r = t.handle(&NiriEvent::WindowFocusChanged(None));
    assert_eq!(app_of(&r), Some(None));

    assert!(t.handle(&NiriEvent::WindowClosed(Some(1))).is_none());
    let r = t.handle(&NiriEvent::WindowFocusChanged(Some(1)));
    assert_eq!(app_of(&r), Some(None));
    assert!(t.handle(&NiriEvent::Other).is_none());
}

#[test]
fn float_rule_is_added_once() {
    let first = float_rule_update("input {}\n\n").expect("the rule is missing");
    assert!(first.starts_with("input {}\n// >>> achieve floating rule (managed) - do not edit inside\n"));
    assert!(first.ends_with("// <<< end achieve floating rule (managed)\n"));
    assert_eq!(float_rule_update(&first), None);
}

#[test]
fn drifted_float_rule_is_replaced_in_place() {
    let stale = "a\n// >>> achieve floating rule (managed) - do not edit inside\nold\n// <<< end achieve floating rule (managed)\nb\n";
    let fixed = float_rule_update(stale).expect("the rule drifted");
    assert!(fixed.starts_with("a\n// >>> achieve"));
    assert!(fixed.ends_with("(managed)\nb\n"));
    assert!(fixed.contains("open-floating true"));
    assert!(!fixed.contains("\nold\n"));
    assert_eq!(float_rule_update(&fixed), None);
}

#[test]
fn niri_config_location() {
    assert_eq!(niri_config_path(Some("/x/cfg"), Some("/home/u")), Some("/x/cfg/niri/config.kdl".to_string()));
    assert_eq!(niri_config_path(Some(""), Some("/home/u")), Some("/home/u/.config/niri/config.kdl".to_string()));
    assert_eq!(niri_config_path(None, Some("/home/u/")), Some("/home/u/.config/niri/config.kdl".to_string()));
    assert_eq!(niri_config_path(None, None), None);
}

#[test]
fn autostart_entry_is_written_once() {
    let (dir, path) = autostart_paths("/home/u");
    assert_eq!(dir, "/home/u/.config/autostart");
    assert_eq!(path, "/home/u/.config/autostart/achieve.desktop");
    let entry = autostart_entry("/opt/Achieve.AppImage", None).expect("no entry yet");
    assert_eq!(
        entry,
        "[Desktop Entry]\nType=Application\nName=Achieve\nComment=Proactive day-companion\nExec=env APPIMAGE_EXTRACT_AND_RUN=1 /opt/Achieve.AppImage\nIcon=achieve\nTerminal=false\nX-GNOME-Autostart-enabled=true\n"
    );
    assert_eq!(autostart_entry("/opt/Achieve.AppImage", Some(&entry)), None);
    assert!(autostart_entry("/other/path", Some(&entry)).is_some());
}

#[test]
fn the_break_locks_the_window() {
    assert!(break_lock("nudge", true));
    assert!(!break_lock("break", true));
    assert!(!break_lock("nudge", false));
    assert_eq!(routed_view("dashboard", true), "break");
    assert_eq!(routed_view("dashboard", false), "dashboard");
}

#[test]
fn veil_goes_to_another_output() {
    let names = vec!["DP-1".to_string(), "HDMI-A-1".to_string()];
    assert_eq!(other_output(&names, "DP-1"), Some("HDMI-A-1".to_string()));
    assert_eq!(other_output(&names, "HDMI-A-1"), Some("DP-1".to_string()));
    assert_eq!(other_output(&vec!["DP-1".to_string()], "DP-1"), None);
}

#[test]
fn windows_are_found_by_exact_title() {
    let ws = vec![win(5, "Achieve", "Achieve Break", false), win(6, "Achieve", "Achieve", false)];
    assert_eq!(window_id_by_title(&ws, "Achieve"), Some(6));
    assert_eq!(window_id_by_title(&ws, "Achieve Veil"), None);
    let odd = vec![NiriWindow { id: None, app_id: None, title: Some("Achieve".to_string()), is_focused: false }, win(9, "a", "Achieve", false)];
    assert_eq!(window_id_by_title(&odd, "Achieve"), None);
}

#[test]
fn stream_lines_are_read_as_events() {
    match parse_niri_event(r#"{"WindowFocusChanged":{"id":12}}"#) {
        Some(NiriEvent::WindowFocusChanged(Some(12))) => {}
        _ => panic!("focus change not read"),
    }
    match parse_niri_event(r#"{"WindowClosed":{"id":"x"}}"#) {
        Some(NiriEvent::WindowClosed(None)) => {}
        _ => panic!("close not read"),
    }
    match parse_niri_event(r#"{"WindowsChanged":{"windows":[{"id":1,"app_id":"firefox","title":"Docs","is_focused":true},{"id":2}]}}"#) {
        Some(NiriEvent::WindowsChanged(ws)) => {
            assert_eq!(ws.len(), 2);
            assert_eq!(ws[0].id, Some(1));
            assert_eq!(ws[0].app_id.as_deref(), Some("firefox"));
            assert_eq!(ws[0].title.as_deref(), Some("Docs"));
            assert!(ws[0].is_focused);
            assert_eq!(ws[1].app_id, None);
            assert!(!ws[1].is_focused);
        }
        _ => panic!("windows not read"),
    }
    match parse_niri_event(r#"{"WindowOpenedOrChanged":{"nope":1}}"#) {
        Some(NiriEvent::Other) => {}
        _ => panic!("payload without window is Other"),
    }
    match parse_niri_event(r#"{"WorkspacesChanged":{}}"#) {
        Some(NiriEvent::Other) => {}
        _ => panic!("unknown event is Other"),
    }
    assert!(parse_niri_event("{}").is_none());
    assert!(parse_niri_event("[1,2]").is_none());
    assert!(parse_niri_event("not json").is_none());
}

#[test]
fn niri_json_outputs_are_read() {
    let ws = br#"[{"id":5,"title":"Achieve Break"},{"id":6,"title":"Achieve"}]"#;
    assert_eq!(window_id_in(ws, "Achieve"), Some(6));
    assert_eq!(window_id_in(ws, "Achieve Veil"), None);
    assert_eq!(window_id_in(b"{}", "Achieve"), None);
    let outs = br#"{"HDMI-A-1":{"name":"HDMI-A-1"},"DP-1":{"name":"DP-1"}}"#;
    assert_eq!(output_names(outs), Some(vec!["DP-1".to_string(), "HDMI-A-1".to_string()]));
    assert_eq!(output_names(b"[]"), None);
    assert_eq!(focused_output_name(br#"{"name":"DP-1","make":"Dell"}"#), Some("DP-1".to_string()));
    assert_eq!(focused_output_name(br#"{"name":3}"#), None);
}

#[test]
fn dashboard_requests_are_normalized() {
    assert_eq!(dashboard_window("week", 2), ("week".to_string(), 2));
    assert_eq!(dashboard_window("month", -3), ("month".to_string(), 0));
    assert_eq!(dashboard_window("year", 1), ("day".to_string(), 1));
}
