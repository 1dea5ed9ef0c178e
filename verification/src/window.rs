//! The single adaptive window's routing decisions: the break lock, which
//! output the break veil goes to, and finding our windows in niri's list.
//! Showing, sizing and the niri commands themselves are the caller's.

use vstd::prelude::*;

use crate::json::{get, jget, json_of_bytes, jstr, parse_json_bytes, str_of, Json, JsonView};
use crate::niri::{niri_window_view, niri_windows, win_of_json, windows_view, NiriWindow, WinView};
use crate::email::ostr;
use crate::text::str_eq;

verus! {

broadcast use vstd::string::group_string_axioms;

/// While a rest break is running, any request to show another surface is
/// redirected to the break view.
pub fn break_lock(view: &str, on_break: bool) -> (b: bool)
    ensures
        b == (view@ != "break"@ && on_break),
{
    if str_eq(view, "break") {
        return false;
    }
    on_break
}

/// The view actually shown for a request: "break" while the break lock holds.
pub fn routed_view<'a>(view: &'a str, on_break: bool) -> (out: &'a str)
    ensures
        out@ == if view@ != "break"@ && on_break { "break"@ } else { view@ },
        on_break ==> out@ == "break"@,
{
    if break_lock(view, on_break) {
        "break"
    } else {
        view
    }
}

/// The first output other than the focused one (where the break veil goes).
pub open spec fn other_output_spec(names: Seq<String>, focused: Seq<char>) -> Option<Seq<char>>
    decreases names.len(),
{
    if names.len() == 0 {
        None
    } else if names[0]@ != focused {
        Some(names[0]@)
    } else {
        other_output_spec(names.drop_first(), focused)
    }
}

pub fn other_output(names: &Vec<String>, focused: &str) -> (out: Option<String>)
    ensures
        ostr(out) == other_output_spec(names@, focused@),
{
    let mut i: usize = 0;
    proof {
        assert(names@.skip(0) =~= names@);
    }
    while i < names.len()
        invariant
            i <= names.len(),
            other_output_spec(names@, focused@) == other_output_spec(names@.skip(i as int), focused@),
        decreases names.len() - i,
    {
        proof {
            assert(names@.skip(i as int).drop_first() =~= names@.skip(i + 1));
            assert(names@.skip(i as int)[0] == names@[i as int]);
        }
        if !str_eq(names[i].as_str(), focused) {
            return Some(names[i].clone());
        }
        i = i + 1;
    }
    None
}

/// The id of the first window with exactly this title (`None` also when that
/// window has no id).
pub open spec fn window_id_spec(ws: Seq<WinView>, title: Seq<char>) -> Option<u64>
    decreases ws.len(),
{
    if ws.len() == 0 {
        None
    } else if ws[0].2 == Some(title) {
        ws[0].0
    } else {
        window_id_spec(ws.drop_first(), title)
    }
}

pub fn window_id_by_title(windows: &Vec<NiriWindow>, title: &str) -> (out: Option<u64>)
    ensures
        out == window_id_spec(windows_view(windows@), title@),
{
    let ghost ws = windows_view(windows@);
    let mut i: usize = 0;
    proof {
        assert(ws.skip(0) =~= ws);
    }
    while i < windows.len()
        invariant
            i <= windows.len(),
            ws == windows_view(windows@),
            window_id_spec(ws, title@) == window_id_spec(ws.skip(i as int), title@),
        decreases windows.len() - i,
    {
        proof {
            assert(ws.skip(i as int).drop_first() =~= ws.skip(i + 1));
            assert(ws.skip(i as int)[0] == niri_window_view(windows@[i as int]));
        }
        let w = &windows[i];
        let hit = match &w.title {
            Some(t) => str_eq(t.as_str(), title),
            None => false,
        };
        if hit {
            return w.id;
        }
        i = i + 1;
    }
    None
}

/// The id of our window with this title, from the output of
/// `niri msg --json windows` (`None` when it is not a JSON array, or no such
/// window).
pub fn window_id_in(windows_json: &[u8], title: &str) -> (out: Option<u64>)
    ensures
        out == match json_of_bytes(windows_json@) {
            Some(JsonView::Arr(a)) => window_id_spec(a.map_values(|w: JsonView| win_of_json(w)), title@),
            _ => None,
        },
{
    match parse_json_bytes(windows_json) {
        Some(Json::Arr(a)) => {
            let ws = niri_windows(&a);
            proof {
                let av = match Json::Arr(a)@ {
                    JsonView::Arr(av) => av,
                    _ => Seq::empty(),
                };
                assert(av.map_values(|w: JsonView| win_of_json(w)) =~= a@.map_values(|j: Json| win_of_json(j@)));
            }
            window_id_by_title(&ws, title)
        },
        _ => None,
    }
}

pub open spec fn opt_names(o: Option<Vec<String>>) -> Option<Seq<Seq<char>>> {
    match o {
        Some(v) => Some(v@.map_values(|s: String| s@)),
        None => None,
    }
}

/// The names of the connected outputs, from the output of
/// `niri msg --json outputs` (an object keyed by name; `None` when it is not
/// a JSON object).
pub fn output_names(outputs_json: &[u8]) -> (out: Option<Vec<String>>)
    ensures
        opt_names(out) == match json_of_bytes(outputs_json@) {
            Some(JsonView::Obj(es)) => Some(es.map_values(|e: (Seq<char>, JsonView)| e.0)),
            _ => None,
        },
{
    match parse_json_bytes(outputs_json) {
        Some(Json::Obj(es)) => {
            let ghost ev = match Json::Obj(es)@ {
                JsonView::Obj(ev) => ev,
                _ => Seq::empty(),
            };
            let mut names: Vec<String> = Vec::new();
            let mut i: usize = 0;
            while i < es.len()
                invariant
                    i <= es.len(),
                    names@.len() == i,
                    ev.len() == es@.len(),
                    forall|k: int| 0 <= k < ev.len() ==> #[trigger] ev[k].0 == es@[k].0@,
                    forall|k: int| 0 <= k < i ==> #[trigger] names@[k]@ == es@[k].0@,
                decreases es.len() - i,
            {
                names.push(es[i].0.clone());
                i = i + 1;
            }
            proof {
                assert(names@.map_values(|s: String| s@) =~= ev.map_values(|e: (Seq<char>, JsonView)| e.0));
            }
            Some(names)
        },
        _ => None,
    }
}

/// The focused output's name, from the output of
/// `niri msg --json focused-output` (its `name` field, when a string).
pub fn focused_output_name(focused_json: &[u8]) -> (out: Option<String>)
    ensures
        ostr(out) == match json_of_bytes(focused_json@) {
            Some(v) => jstr(jget(v, "name"@)),
            None => None,
        },
{
    match parse_json_bytes(focused_json) {
        Some(v) => str_of(get(&v, "name")),
        None => None,
    }
}

} // verus!
