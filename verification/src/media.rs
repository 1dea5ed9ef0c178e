//! "Is the user engaged, just not typing?": active audio playback counts as
//! presence, so a task is not auto-paused while media plays.

use vstd::prelude::*;

use crate::json::{get, jget, json_of_bytes, jstr, parse_json_bytes, str_of, Json, JsonView};
use crate::text::{ascii_lower_seq, ascii_lowercase, chars_of, contains, has_prefix, seq_contains, starts_with, str_eq};

verus! {

broadcast use vstd::string::group_string_axioms;

/// A string property of `props` (`props.get(k).as_str()`), or the empty string
/// when it is missing or not a string.
pub open spec fn sprop(props: JsonView, k: Seq<char>) -> Seq<char> {
    match jstr(jget(props, k)) {
        Some(s) => s,
        None => Seq::empty(),
    }
}

/// Our own audio, under any name it registers with ("achieve",
/// "ALSA plug-in [achieve]", ...).
pub open spec fn is_self_spec(name: Seq<char>) -> bool {
    seq_contains(ascii_lower_seq(name), "achieve"@)
}

pub fn is_self(name: &str) -> (out: bool)
    ensures
        out == is_self_spec(name@),
{
    contains(&ascii_lowercase(&chars_of(name)), &chars_of("achieve"))
}

fn str_prop(props: &Json, k: &str) -> (out: Vec<char>)
    ensures
        out@ == sprop(props@, k@),
{
    match str_of(get(props, k)) {
        Some(s) => chars_of(s.as_str()),
        None => Vec::new(),
    }
}

/// The object of `pw-dump` output is an output stream actively feeding samples
/// to the speakers (its `info.state` is "running"), and not our own.
pub open spec fn object_playing(o: JsonView) -> bool {
    match jget(o, "info"@) {
        Some(info) => match jget(info, "props"@) {
            Some(props) => {
                &&& has_prefix(sprop(props, "media.class"@), "Stream/Output/Audio"@)
                &&& jstr(jget(info, "state"@)) == Some("running"@)
                &&& !is_self_spec(sprop(props, "application.name"@))
                &&& !is_self_spec(sprop(props, "application.process.binary"@))
                &&& !is_self_spec(sprop(props, "node.name"@))
            },
            None => false,
        },
        None => false,
    }
}

fn object_is_playing(o: &Json) -> (out: bool)
    ensures
        out == object_playing(o@),
{
    let info = match get(o, "info") {
        Some(i) => i,
        None => return false,
    };
    let props = match get(info, "props") {
        Some(p) => p,
        None => return false,
    };
    if !starts_with(&str_prop(props, "media.class"), &chars_of("Stream/Output/Audio")) {
        return false;
    }
    let running = match str_of(get(info, "state")) {
        Some(st) => str_eq(st.as_str(), "running"),
        None => false,
    };
    if !running {
        return false;
    }
    !contains(&ascii_lowercase(&str_prop(props, "application.name")), &chars_of("achieve"))
        && !contains(&ascii_lowercase(&str_prop(props, "application.process.binary")), &chars_of("achieve"))
        && !contains(&ascii_lowercase(&str_prop(props, "node.name")), &chars_of("achieve"))
}

/// Some application is actively playing audio, judged from `pw-dump` output:
/// an array with a playing object (anything but an array plays nothing).
pub open spec fn stream_running_spec(objects: JsonView) -> bool {
    objects is Arr && exists|i: int| 0 <= i < objects->Arr_0.len() && #[trigger] object_playing(objects->Arr_0[i])
}

pub fn any_stream_running(objects: &Json) -> (out: bool)
    ensures
        out == stream_running_spec(objects@),
{
    match objects {
        Json::Arr(arr) => {
            let ghost av = match objects@ {
                JsonView::Arr(av) => av,
                _ => Seq::empty(),
            };
            let mut i: usize = 0;
            while i < arr.len()
                invariant
                    i <= arr@.len(),
                    objects@ == JsonView::Arr(av),
                    av.len() == arr@.len(),
                    forall|k: int| 0 <= k < av.len() ==> #[trigger] av[k] == arr@[k]@,
                    forall|k: int| 0 <= k < i ==> !#[trigger] object_playing(av[k]),
                decreases arr@.len() - i,
            {
                if object_is_playing(&arr[i]) {
                    proof {
                        assert(object_playing(av[i as int]));
                        assert(objects@->Arr_0 == av);
                        assert(stream_running_spec(objects@));
                    }
                    return true;
                }
                i = i + 1;
            }
            false
        },
        _ => false,
    }
}

/// Whether audio is running, from the raw `pw-dump` output: `None` when it is
/// not JSON.
pub fn audio_running_in(dump: &[u8]) -> (out: Option<bool>)
    ensures
        out == match json_of_bytes(dump@) {
            Some(v) => Some(stream_running_spec(v)),
            None => None,
        },
{
    match parse_json_bytes(dump) {
        Some(v) => Some(any_stream_running(&v)),
        None => None,
    }
}

/// The user appears engaged with media: PipeWire shows audio running (an
/// unreadable dump counts as no), or an MPRIS player reports playing.
pub fn any_playing(audio_running: Option<bool>, mpris_playing: bool) -> (out: bool)
    ensures
        out == ((audio_running == Some(true)) || mpris_playing),
{
    let audio = match audio_running {
        Some(b) => b,
        None => false,
    };
    audio || mpris_playing
}

/// A session-bus name that belongs to an MPRIS media player.
pub fn is_mpris_player(bus_name: &str) -> (out: bool)
    ensures
        out == has_prefix(bus_name@, "org.mpris.MediaPlayer2."@),
{
    starts_with(&chars_of(bus_name), &chars_of("org.mpris.MediaPlayer2."))
}

/// A player's `PlaybackStatus` says it is playing.
pub fn reports_playing(status: &str) -> (out: bool)
    ensures
        out == (status@ == "Playing"@),
{
    str_eq(status, "Playing")
}

} // verus!
