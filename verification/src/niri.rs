//! Automatic activity capture on niri: which compositor we run under, and the
//! focus tracker that turns niri's event stream into focus-log rows.
//!
//! The stream itself (a `niri msg --json event-stream` child process) and the
//! database writes stay with the caller; this module reads each line of the
//! stream as an event, holds the window map and decides, event by event, when
//! focus moved and to which window.

use std::collections::HashMap;

use vstd::prelude::*;

use crate::email::ostr;
use crate::json::{
    bool_of, get, jbool, jget, jstr, json_of, ju64, parse_json, str_of, u64_of, Json, JsonView,
};
use crate::text::{chars_of, contains, lowercase, seq_contains, str_eq, to_lowercase};

verus! {

broadcast use vstd::std_specs::hash::group_hash_axioms;

/// The compositors we know about.
#[derive(Debug, Clone, Copy, PartialEq, Eq, Structural)]
pub enum Compositor {
    Niri,
    Sway,
    Hyprland,
    Other,
}

/// Which compositor we run under, from `XDG_CURRENT_DESKTOP` (empty when
/// unset) and whether `NIRI_SOCKET`, `SWAYSOCK` and
/// `HYPRLAND_INSTANCE_SIGNATURE` are set.
pub fn detect_compositor(desktop: &str, niri_socket: bool, swaysock: bool, hyprland: bool) -> (out: Compositor)
    ensures
        out == if seq_contains(lowercase(desktop@), "niri"@) || niri_socket {
            Compositor::Niri
        } else if swaysock {
            Compositor::Sway
        } else if hyprland {
            Compositor::Hyprland
        } else {
            Compositor::Other
        },
{
    let d = to_lowercase(desktop);
    if contains(&chars_of(d.as_str()), &chars_of("niri")) || niri_socket {
        Compositor::Niri
    } else if swaysock {
        Compositor::Sway
    } else if hyprland {
        Compositor::Hyprland
    } else {
        Compositor::Other
    }
}

/// We run under niri: the desktop name (when set) mentions it, or its socket
/// is set.
pub fn on_niri(desktop: Option<&str>, niri_socket: bool) -> (out: bool)
    ensures
        out == (match desktop {
            Some(d) => seq_contains(lowercase(d@), "niri"@),
            None => false,
        } || niri_socket),
{
    let named = match desktop {
        Some(d) => contains(&chars_of(to_lowercase(d).as_str()), &chars_of("niri")),
        None => false,
    };
    named || niri_socket
}

/// What the focus log records about a window.
pub struct WindowInfo {
    pub app_id: Option<String>,
    pub title: Option<String>,
}

/// A window object of niri's event stream (`id`, `app_id`, `title` and
/// whether `is_focused` is true; a field that is missing or of another type
/// is `None` / false).
pub struct NiriWindow {
    pub id: Option<u64>,
    pub app_id: Option<String>,
    pub title: Option<String>,
    pub is_focused: bool,
}

/// One event of niri's stream, with the payload the tracker reads. An event
/// whose payload lacks the expected field is `Other`.
pub enum NiriEvent {
    WindowsChanged(Vec<NiriWindow>),
    WindowOpenedOrChanged(NiriWindow),
    WindowFocusChanged(Option<u64>),
    WindowClosed(Option<u64>),
    Other,
}

/// A window of the stream as plain values: id, app id, title, focused.
pub type WinView = (Option<u64>, Option<Seq<char>>, Option<Seq<char>>, bool);

pub open spec fn niri_window_view(w: NiriWindow) -> WinView {
    (w.id, ostr(w.app_id), ostr(w.title), w.is_focused)
}

/// A window object of the stream: its `id`, `app_id` and `title` (each when of
/// the right type) and whether `is_focused` is `true`.
pub open spec fn win_of_json(w: JsonView) -> WinView {
    (
        ju64(jget(w, "id"@)),
        jstr(jget(w, "app_id"@)),
        jstr(jget(w, "title"@)),
        jbool(jget(w, "is_focused"@)) == Some(true),
    )
}

/// Read a window object of the stream.
pub fn niri_window(w: &Json) -> (out: NiriWindow)
    ensures
        niri_window_view(out) == win_of_json(w@),
{
    let focused = bool_of(get(w, "is_focused"));
    NiriWindow {
        id: u64_of(get(w, "id")),
        app_id: str_of(get(w, "app_id")),
        title: str_of(get(w, "title")),
        is_focused: match focused {
            Some(b) => b,
            None => false,
        },
    }
}

pub open spec fn windows_view(ws: Seq<NiriWindow>) -> Seq<WinView> {
    ws.map_values(|w: NiriWindow| niri_window_view(w))
}

/// Read every window of a JSON array.
pub fn niri_windows(a: &Vec<Json>) -> (out: Vec<NiriWindow>)
    ensures
        windows_view(out@) == a@.map_values(|j: Json| win_of_json(j@)),
{
    let mut out: Vec<NiriWindow> = Vec::new();
    let mut i: usize = 0;
    while i < a.len()
        invariant
            i <= a.len(),
            out@.len() == i,
            forall|k: int| 0 <= k < i ==> niri_window_view(#[trigger] out@[k]) == win_of_json(a@[k]@),
        decreases a.len() - i,
    {
        out.push(niri_window(&a[i]));
        i = i + 1;
    }
    proof {
        assert(windows_view(out@) =~= a@.map_values(|j: Json| win_of_json(j@)));
    }
    out
}

/// An event of the stream as plain values.
pub enum NiriEventView {
    WindowsChanged(Seq<WinView>),
    WindowOpenedOrChanged(WinView),
    WindowFocusChanged(Option<u64>),
    WindowClosed(Option<u64>),
    Other,
}

pub open spec fn event_view(e: NiriEvent) -> NiriEventView {
    match e {
        NiriEvent::WindowsChanged(ws) => NiriEventView::WindowsChanged(windows_view(ws@)),
        NiriEvent::WindowOpenedOrChanged(w) => NiriEventView::WindowOpenedOrChanged(niri_window_view(w)),
        NiriEvent::WindowFocusChanged(id) => NiriEventView::WindowFocusChanged(id),
        NiriEvent::WindowClosed(id) => NiriEventView::WindowClosed(id),
        NiriEvent::Other => NiriEventView::Other,
    }
}

pub open spec fn opt_event_view(o: Option<NiriEvent>) -> Option<NiriEventView> {
    match o {
        Some(e) => Some(event_view(e)),
        None => None,
    }
}

/// The event named `name` with payload `p`: the windows of `WindowsChanged`,
/// the window of `WindowOpenedOrChanged`, the id of `WindowFocusChanged` and
/// `WindowClosed`; any other event, or a payload without the field of the
/// right type, is `Other`.
pub open spec fn event_of_entry(name: Seq<char>, p: JsonView) -> NiriEventView {
    if name == "WindowsChanged"@ {
        match jget(p, "windows"@) {
            Some(JsonView::Arr(ws)) => NiriEventView::WindowsChanged(ws.map_values(|w: JsonView| win_of_json(w))),
            _ => NiriEventView::Other,
        }
    } else if name == "WindowOpenedOrChanged"@ {
        match jget(p, "window"@) {
            Some(w) => NiriEventView::WindowOpenedOrChanged(win_of_json(w)),
            None => NiriEventView::Other,
        }
    } else if name == "WindowFocusChanged"@ {
        NiriEventView::WindowFocusChanged(ju64(jget(p, "id"@)))
    } else if name == "WindowClosed"@ {
        NiriEventView::WindowClosed(ju64(jget(p, "id"@)))
    } else {
        NiriEventView::Other
    }
}

/// A line of the stream is an object `{ "EventName": payload }`; its first
/// entry is the event. `None` for anything else (the line is skipped).
pub open spec fn niri_event_spec(v: JsonView) -> Option<NiriEventView> {
    match v {
        JsonView::Obj(es) => if es.len() == 0 {
            None
        } else {
            Some(event_of_entry(es[0].0, es[0].1))
        },
        _ => None,
    }
}

/// Read one parsed line of the stream as an event.
pub fn niri_event(v: &Json) -> (out: Option<NiriEvent>)
    ensures
        opt_event_view(out) == niri_event_spec(v@),
{
    match v {
        Json::Obj(es) => {
            if es.len() == 0 {
                return None;
            }
            let name = es[0].0.as_str();
            let p = &es[0].1;
            proof {
                let x = match v@ {
                    JsonView::Obj(x) => x,
                    _ => Seq::empty(),
                };
                assert(x[0] == (es@[0].0@, p@));
            }
            let ev = if str_eq(name, "WindowsChanged") {
                match get(p, "windows") {
                    Some(Json::Arr(a)) => {
                        let ws = niri_windows(a);
                        proof {
                            let j = Json::Arr(*a);
                            let av = match j@ {
                                JsonView::Arr(av) => av,
                                _ => Seq::empty(),
                            };
                            assert(av.map_values(|w: JsonView| win_of_json(w)) =~= a@.map_values(
                                |j: Json| win_of_json(j@),
                            ));
                        }
                        NiriEvent::WindowsChanged(ws)
                    },
                    _ => NiriEvent::Other,
                }
            } else if str_eq(name, "WindowOpenedOrChanged") {
                match get(p, "window") {
                    Some(w) => NiriEvent::WindowOpenedOrChanged(niri_window(w)),
                    None => NiriEvent::Other,
                }
            } else if str_eq(name, "WindowFocusChanged") {
                NiriEvent::WindowFocusChanged(u64_of(get(p, "id")))
            } else if str_eq(name, "WindowClosed") {
                NiriEvent::WindowClosed(u64_of(get(p, "id")))
            } else {
                NiriEvent::Other
            };
            Some(ev)
        },
        _ => None,
    }
}

/// Read one line of the stream: parse it, then read it as an event. `None`
/// for a line that is not JSON or not an event object.
pub fn parse_niri_event(line: &str) -> (out: Option<NiriEvent>)
    ensures
        opt_event_view(out) == match json_of(line@) {
            Some(v) => niri_event_spec(v),
            None => None,
        },
{
    match parse_json(line) {
        Some(v) => niri_event(&v),
        None => None,
    }
}

/// A window's recorded identity as plain text.
pub type InfoView = (Option<Seq<char>>, Option<Seq<char>>);

pub open spec fn info_view(i: WindowInfo) -> InfoView {
    (ostr(i.app_id), ostr(i.title))
}

pub open spec fn window_view(w: NiriWindow) -> InfoView {
    (ostr(w.app_id), ostr(w.title))
}

/// The window map after learning about one window (one without an id is
/// ignored).
pub open spec fn ingest_spec(m: Map<u64, InfoView>, w: NiriWindow) -> Map<u64, InfoView> {
    match w.id {
        Some(id) => m.insert(id, window_view(w)),
        None => m,
    }
}

pub open spec fn ingest_all(m: Map<u64, InfoView>, ws: Seq<NiriWindow>) -> Map<u64, InfoView>
    decreases ws.len(),
{
    if ws.len() == 0 {
        m
    } else {
        ingest_spec(ingest_all(m, ws.drop_last()), ws.last())
    }
}

/// The focused window after a list of windows: the last one marked focused.
pub open spec fn focus_after(f: Option<u64>, ws: Seq<NiriWindow>) -> Option<u64>
    decreases ws.len(),
{
    if ws.len() == 0 {
        f
    } else if ws.last().is_focused {
        ws.last().id
    } else {
        focus_after(f, ws.drop_last())
    }
}

/// The known identity of a window, if the map has it.
pub open spec fn lookup(m: Map<u64, InfoView>, id: u64) -> Option<InfoView> {
    if m.contains_key(id) { Some(m[id]) } else { None }
}

/// One event's effect: the new window map, the new focused window, and the
/// focus row to open (`Some(None)`: focus on no known window), if any.
pub open spec fn step_spec(m: Map<u64, InfoView>, f: Option<u64>, ev: NiriEvent) -> (
    Map<u64, InfoView>,
    Option<u64>,
    Option<Option<InfoView>>,
) {
    match ev {
        NiriEvent::WindowsChanged(ws) => {
            let m2 = ingest_all(m, ws@);
            let f2 = focus_after(f, ws@);
            (
                m2,
                f2,
                match f2 {
                    Some(id) => Some(lookup(m2, id)),
                    None => None,
                },
            )
        },
        NiriEvent::WindowOpenedOrChanged(w) => {
            let m2 = ingest_spec(m, w);
            if w.is_focused && w.id != f {
                (
                    m2,
                    w.id,
                    match w.id {
                        Some(id) => Some(lookup(m2, id)),
                        None => None,
                    },
                )
            } else {
                (m2, f, None)
            }
        },
        NiriEvent::WindowFocusChanged(id) => (
            m,
            id,
            Some(
                match id {
                    Some(i) => lookup(m, i),
                    None => None,
                },
            ),
        ),
        NiriEvent::WindowClosed(id) => (
            match id {
                Some(i) => m.remove(i),
                None => m,
            },
            f,
            None,
        ),
        NiriEvent::Other => (m, f, None),
    }
}

/// A window the stream reports opened or changed is learned whatever its focus
/// flag, and a later focus change to it opens a row naming it.
pub proof fn law_reported_window_is_learned(m: Map<u64, InfoView>, f: Option<u64>, w: NiriWindow)
    requires
        w.id is Some,
    ensures
        ({
            let id = w.id->0;
            let (m2, f2, r) = step_spec(m, f, NiriEvent::WindowOpenedOrChanged(w));
            let (m3, f3, r3) = step_spec(m2, f2, NiriEvent::WindowFocusChanged(Some(id)));
            &&& m2.contains_key(id) && m2[id] == (ostr(w.app_id), ostr(w.title))
            &&& r3 == Some(Some((ostr(w.app_id), ostr(w.title))))
            &&& f3 == Some(id)
        }),
{
}

pub open spec fn record_view(r: Option<Option<WindowInfo>>) -> Option<Option<InfoView>> {
    match r {
        Some(Some(i)) => Some(Some(info_view(i))),
        Some(None) => Some(None),
        None => None,
    }
}

fn clone_opt(o: &Option<String>) -> (out: Option<String>)
    ensures
        ostr(out) == ostr(*o),
{
    match o {
        Some(s) => Some(s.clone()),
        None => None,
    }
}

/// The window map and the focused window, as the stream has told them.
pub struct FocusTracker {
    pub windows: HashMap<u64, WindowInfo>,
    pub focused: Option<u64>,
}

impl FocusTracker {
    /// The window map as plain text.
    pub open spec fn windows_model(&self) -> Map<u64, InfoView> {
        self.windows@.map_values(|i: WindowInfo| info_view(i))
    }

    /// The tracker as plain values: the window map and the focused window.
    pub open spec fn model(&self) -> (Map<u64, InfoView>, Option<u64>) {
        (self.windows_model(), self.focused)
    }

    /// No windows known, nothing focused.
    pub fn new() -> (t: FocusTracker)
        ensures
            t.model() == (Map::<u64, InfoView>::empty(), None::<u64>),
    {
        let t = FocusTracker { windows: HashMap::new(), focused: None };
        proof {
            assert(t.windows_model() =~= Map::<u64, InfoView>::empty());
        }
        t
    }

    /// Learn (or relearn) a window's identity.
    pub fn ingest_window(&mut self, w: &NiriWindow)
        ensures
            final(self).model() == (ingest_spec(old(self).model().0, *w), old(self).model().1),
    {
        if let Some(id) = w.id {
            let info = WindowInfo { app_id: clone_opt(&w.app_id), title: clone_opt(&w.title) };
            self.windows.insert(id, info);
            proof {
                assert(self.windows_model() =~= old(self).windows_model().insert(id, window_view(*w)));
            }
        }
    }

    fn lookup_info(&self, id: u64) -> (out: Option<WindowInfo>)
        ensures
            match out {
                Some(i) => lookup(self.windows_model(), id) == Some(info_view(i)),
                None => lookup(self.windows_model(), id) is None,
            },
    {
        match self.windows.get(&id) {
            Some(i) => Some(WindowInfo { app_id: clone_opt(&i.app_id), title: clone_opt(&i.title) }),
            None => None,
        }
    }

    /// Apply one event; returns the focus row to open, if focus moved
    /// (`Some(None)` when focus is on no known window).
    pub fn handle(&mut self, ev: &NiriEvent) -> (out: Option<Option<WindowInfo>>)
        ensures
            ({
                let (m2, f2, r) = step_spec(old(self).model().0, old(self).model().1, *ev);
                &&& final(self).model() == (m2, f2)
                &&& record_view(out) == r
            }),
            match *ev {
                NiriEvent::WindowOpenedOrChanged(w) => match w.id {
                    Some(id) => final(self).model().0.contains_key(id) && final(self).model().0[id] == (
                    ostr(w.app_id), ostr(w.title)),
                    None => true,
                },
                _ => true,
            },
    {
        match ev {
            NiriEvent::WindowsChanged(ws) => {
                let mut i: usize = 0;
                while i < ws.len()
                    invariant
                        i <= ws.len(),
                        self.windows_model() == ingest_all(old(self).windows_model(), ws@.take(i as int)),
                        self.focused == focus_after(old(self).focused, ws@.take(i as int)),
                    decreases ws.len() - i,
                {
                    let w = &ws[i];
                    proof {
                        assert(ws@.take(i + 1).drop_last() =~= ws@.take(i as int));
                        assert(ws@.take(i + 1).last() == ws@[i as int]);
                    }
                    self.ingest_window(w);
                    if w.is_focused {
                        self.focused = w.id;
                    }
                    i = i + 1;
                }
                proof {
                    assert(ws@.take(ws.len() as int) =~= ws@);
                }
                match self.focused {
                    Some(id) => Some(self.lookup_info(id)),
                    None => None,
                }
            },
            NiriEvent::WindowOpenedOrChanged(w) => {
                self.ingest_window(w);
                if w.is_focused && w.id != self.focused {
                    self.focused = w.id;
                    match w.id {
                        Some(id) => Some(self.lookup_info(id)),
                        None => None,
                    }
                } else {
                    None
                }
            },
            NiriEvent::WindowFocusChanged(id) => {
                self.focused = *id;
                match id {
                    Some(i) => Some(self.lookup_info(*i)),
                    None => Some(None),
                }
            },
            NiriEvent::WindowClosed(id) => {
                if let Some(i) = id {
                    self.windows.remove(i);
                    proof {
                        assert(self.windows_model() =~= old(self).windows_model().remove(*i));
                    }
                }
                None
            },
            NiriEvent::Other => None,
        }
    }
}

} // verus!
