//! Launch-on-login: the XDG autostart entry that points at our executable.
//! Reading and writing the file is the caller's; this module says where it
//! goes and what it should hold.

use vstd::prelude::*;

use crate::email::ostr;
use crate::text::{chars_of, contains, occurs_at, seq_contains};

verus! {

broadcast use vstd::string::group_string_axioms;

/// The entry's launch line: run through `APPIMAGE_EXTRACT_AND_RUN=1` so it does
/// not depend on FUSE being ready this early in the session.
pub open spec fn exec_line_spec(exec: Seq<char>) -> Seq<char> {
    "Exec=env APPIMAGE_EXTRACT_AND_RUN=1 "@ + exec
}

/// The whole desktop entry around a launch line.
pub open spec fn entry_spec(exec_line: Seq<char>) -> Seq<char> {
    "[Desktop Entry]\nType=Application\nName=Achieve\nComment=Proactive day-companion\n"@ + exec_line
        + "\nIcon=achieve\nTerminal=false\nX-GNOME-Autostart-enabled=true\n"@
}

/// The autostart directory and the entry's path under a home directory.
pub fn autostart_paths(home: &str) -> (out: (String, String))
    ensures
        out.0@ == home@ + "/.config/autostart"@,
        out.1@ == home@ + "/.config/autostart"@ + "/achieve.desktop"@,
{
    let mut dir = String::from_str(home);
    dir.append("/.config/autostart");
    let mut path = String::from_str(dir.as_str());
    path.append("/achieve.desktop");
    (dir, path)
}

/// The entry to write for `exec`, or `None` when the existing file already
/// launches that executable.
pub fn autostart_entry(exec: &str, existing: Option<&str>) -> (out: Option<String>)
    ensures
        ostr(out) == if existing matches Some(c) && seq_contains(c@, exec_line_spec(exec@)) {
            None
        } else {
            Some(entry_spec(exec_line_spec(exec@)))
        },
{
    let mut line = String::from_str("Exec=env APPIMAGE_EXTRACT_AND_RUN=1 ");
    line.append(exec);
    if let Some(c) = existing {
        if contains(&chars_of(c), &chars_of(line.as_str())) {
            return None;
        }
    }
    let mut content = String::from_str(
        "[Desktop Entry]\nType=Application\nName=Achieve\nComment=Proactive day-companion\n",
    );
    content.append(line.as_str());
    content.append("\nIcon=achieve\nTerminal=false\nX-GNOME-Autostart-enabled=true\n");
    Some(content)
}

/// Once the entry is written, asking again for the same executable finds it
/// in place and writes nothing: the entry is stable.
pub proof fn law_autostart_entry_is_stable(exec: Seq<char>)
    ensures
        seq_contains(entry_spec(exec_line_spec(exec)), exec_line_spec(exec)),
{
    let line = exec_line_spec(exec);
    let pre = "[Desktop Entry]\nType=Application\nName=Achieve\nComment=Proactive day-companion\n"@;
    let post = "\nIcon=achieve\nTerminal=false\nX-GNOME-Autostart-enabled=true\n"@;
    let e = entry_spec(line);
    assert(e == pre + line + post);
    assert(e.subrange(pre.len() as int, (pre.len() + line.len()) as int) =~= line);
    assert(occurs_at(e, line, pre.len() as int));
}

} // verus!
