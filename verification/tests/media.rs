use achieve::json::{parse_json, Json};
use achieve::media::{any_stream_running, audio_running_in};

fn s(x: &str) -> Json {
    Json::Str(x.to_string())
}

fn obj(entries: Vec<(&str, Json)>) -> Json {
    Json::Obj(entries.into_iter().map(|(k, v)| (k.to_string(), v)).collect())
}

/// A PipeWire node as `pw-dump` reports it: its state, media class and the
/// application that owns it.
fn node(app: &str, state: &str, class: &str) -> Json {
    obj(vec![
        ("type", s("PipeWire:Interface:Node")),
        (
            "info",
            obj(vec![
                ("state", s(state)),
                (
                    "props",
                    obj(vec![("media.class", s(class)), ("application.name", s(app)), ("node.name", s(app))]),
                ),
            ]),
        ),
    ])
}

#[test]
fn running_stream_counts_as_playing() {
    let d = Json::Arr(vec![node("pw-play", "running", "Stream/Output/Audio")]);
    assert!(any_stream_running(&d));
}

#[test]
fn idle_stream_does_not() {
    let d = Json::Arr(vec![node("Brave", "idle", "Stream/Output/Audio")]);
    assert!(!any_stream_running(&d));
}

#[test]
fn own_playback_is_ignored() {
    let d = Json::Arr(vec![
        node("ALSA plug-in [achieve]", "running", "Stream/Output/Audio"),
        node("achieve", "running", "Stream/Output/Audio"),
    ]);
    assert!(!any_stream_running(&d));
}

#[test]
fn non_output_streams_are_ignored() {
    let d = Json::Arr(vec![
        node("OBS", "running", "Stream/Input/Audio"),
        node("alsa_output.pci", "running", "Audio/Sink"),
    ]);
    assert!(!any_stream_running(&d));
}

#[test]
fn malformed_objects_do_not_panic() {
    let d = Json::Arr(vec![obj(vec![("type", s("PipeWire:Interface:Node"))]), obj(vec![]), Json::Num(Some(3))]);
    assert!(!any_stream_running(&d));
}

#[test]
fn pw_dump_text_is_read() {
    let dump = br#"[{"type":"PipeWire:Interface:Node","info":{"state":"running",
        "props":{"media.class":"Stream/Output/Audio","application.name":"mpv","node.name":"mpv"}}}]"#;
    assert_eq!(audio_running_in(dump), Some(true));
    let quiet = br#"[{"info":{"state":"suspended","props":{"media.class":"Stream/Output/Audio"}}}]"#;
    assert_eq!(audio_running_in(quiet), Some(false));
    assert_eq!(audio_running_in(b"{\"not\": \"a list\"}"), Some(false));
    assert_eq!(audio_running_in(b"not json"), None);
    // The parsed text is the same value built by hand.
    let parsed = parse_json(r#"[{"info":{"state":"running","props":{"media.class":"Stream/Output/Audio","application.name":"achieve"}}}]"#).unwrap();
    assert!(!any_stream_running(&parsed));
}
