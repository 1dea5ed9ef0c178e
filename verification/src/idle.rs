//! Idle detection (away from keyboard) is driven through `swayidle`, which
//! keeps a flag file next to the database: created when input stops for the
//! idle timeout, removed on activity.

use vstd::prelude::*;

use crate::text::{chars_of, decimal, i64_string, parse_i64, parse_i64_spec, push_str, string_of};

verus! {

broadcast use vstd::string::group_string_axioms;

/// `Path::join` of a relative name onto a directory: a separator is added
/// unless the directory is empty or already ends with one.
pub open spec fn join_spec(dir: Seq<char>, name: Seq<char>) -> Seq<char> {
    if dir.len() > 0 && dir.last() != '/' {
        dir + seq!['/'] + name
    } else {
        dir + name
    }
}

/// The idle timeout in seconds from `ACHIEVE_IDLE_SECS`: the number when it
/// parses and is at least 30, else ten minutes.
pub open spec fn idle_secs_spec(v: Option<Seq<char>>) -> int {
    match v {
        Some(s) => match parse_i64_spec(s) {
            Some(n) => if n >= 30 { n as int } else { 600 },
            None => 600,
        },
        None => 600,
    }
}

pub fn idle_secs_setting(v: Option<&str>) -> (out: i64)
    ensures
        out == idle_secs_spec(
            match v {
                Some(s) => Some(s@),
                None => None,
            },
        ),
{
    match v {
        Some(s) => match parse_i64(&chars_of(s)) {
            Some(n) => if n >= 30 { n } else { 600 },
            None => 600,
        },
        None => 600,
    }
}

/// Where the idle flag lives: `idle.flag` in the data directory.
pub fn idle_flag_path(data_dir: &str) -> (out: String)
    ensures
        out@ == join_spec(data_dir@, "idle.flag"@),
{
    let d = chars_of(data_dir);
    let mut v: Vec<char> = Vec::new();
    push_str(&mut v, data_dir);
    if d.len() > 0 && d[d.len() - 1] != '/' {
        v.push('/');
    }
    push_str(&mut v, "idle.flag");
    proof {
        if d@.len() > 0 && d@.last() != '/' {
            assert(v@ =~= data_dir@ + seq!['/'] + "idle.flag"@);
        } else {
            assert(v@ =~= data_dir@ + "idle.flag"@);
        }
    }
    string_of(&v)
}

/// One character of a single-quoted shell word: a quote becomes `'\''`.
pub open spec fn quote_char(c: char) -> Seq<char> {
    if c == '\'' {
        seq!['\'', '\\', '\'', '\'']
    } else {
        seq![c]
    }
}

pub open spec fn quote_body(s: Seq<char>) -> Seq<char>
    decreases s.len(),
{
    if s.len() == 0 {
        Seq::empty()
    } else {
        quote_body(s.drop_last()) + quote_char(s.last())
    }
}

/// `s` single-quoted for an `sh -c` command line.
pub open spec fn shell_quote_spec(s: Seq<char>) -> Seq<char> {
    seq!['\''] + quote_body(s) + seq!['\'']
}

/// Single-quote a path for an `sh -c` command line.
pub fn shell_quote(s: &str) -> (out: String)
    ensures
        out@ == shell_quote_spec(s@),
{
    let cs = chars_of(s);
    let mut v: Vec<char> = Vec::new();
    v.push('\'');
    let mut i: usize = 0;
    while i < cs.len()
        invariant
            i <= cs@.len(),
            cs@ == s@,
            v@ == seq!['\''] + quote_body(cs@.take(i as int)),
        decreases cs@.len() - i,
    {
        let c = cs[i];
        let ghost pre = v@;
        if c == '\'' {
            v.push('\'');
            v.push('\\');
            v.push('\'');
            v.push('\'');
        } else {
            v.push(c);
        }
        proof {
            assert(cs@.take(i + 1).drop_last() =~= cs@.take(i as int));
            assert(v@ =~= pre + quote_char(c));
        }
        i = i + 1;
    }
    v.push('\'');
    proof {
        assert(cs@.take(cs@.len() as int) =~= cs@);
    }
    string_of(&v)
}

/// The arguments `swayidle` runs with: wait for commands, touch the flag after
/// `idle_secs` without input, remove it on resume.
pub fn swayidle_args(flag: &str, idle_secs: u32) -> (out: Vec<String>)
    ensures
        out@.len() == 6,
        out@[0]@ == "-w"@,
        out@[1]@ == "timeout"@,
        out@[2]@ == decimal(idle_secs as int),
        out@[3]@ == "touch "@ + shell_quote_spec(flag@),
        out@[4]@ == "resume"@,
        out@[5]@ == "rm -f "@ + shell_quote_spec(flag@),
{
    let q = shell_quote(flag);
    let mut on_idle = String::from_str("touch ");
    on_idle.append(q.as_str());
    let mut on_resume = String::from_str("rm -f ");
    on_resume.append(q.as_str());
    let mut out: Vec<String> = Vec::new();
    out.push(String::from_str("-w"));
    out.push(String::from_str("timeout"));
    out.push(i64_string(idle_secs as i64));
    out.push(on_idle);
    out.push(String::from_str("resume"));
    out.push(on_resume);
    out
}

} // verus!
