//! Compositor self-configuration: keeping the niri window rule that floats and
//! centers the Achieve card in a clearly marked managed block of niri's config.
//!
//! Reading and writing the file, the backup and `niri validate` are the
//! caller's; this module decides what the config should become.

use vstd::prelude::*;

use crate::email::ostr;
use crate::idle::join_spec;
use crate::text::{
    chars_eq, chars_of, find_first, find_spec, is_ws, lemma_find_spec_first, lemma_find_spec_none, lemma_find_spec_some,
    lowercase, occurs_at, seq_contains, string_of, sub_chars, trim_end, trimmed_end,
};

pub use crate::niri::on_niri;

verus! {

broadcast use vstd::string::group_string_axioms;

/// The first line of the managed block.
pub open spec fn block_begin() -> Seq<char> {
    "// >>> achieve floating rule (managed) - do not edit inside"@
}

/// The last line of the managed block.
pub open spec fn block_end() -> Seq<char> {
    "// <<< end achieve floating rule (managed)"@
}

/// The window rule inside the managed block.
pub open spec fn float_rule() -> Seq<char> {
    r#"window-rule {
    match title="^Achieve$"
    open-floating true
    // the glass card draws its own frame; suppress niri's ring/border/shadow
    // so a colored focus ring does not appear behind the transparent window.
    focus-ring { off; }
    border { off; }
    shadow { off; }
    // Round + clip the window to the card's radius so its corners are rounded
    // by the compositor and there's no square transparent margin around it.
    geometry-corner-radius 14
    clip-to-geometry true
}"#@
}

/// The whole managed block: begin marker, rule, end marker.
pub open spec fn managed_block() -> Seq<char> {
    block_begin() + "\n"@ + float_rule() + "\n"@ + block_end()
}

/// What the config should become, or `None` when it already holds the current
/// block. A block between the markers is replaced in place when it drifted;
/// without one, the block is appended after the trimmed config.
pub open spec fn float_rule_update_spec(current: Seq<char>) -> Option<Seq<char>> {
    let block = managed_block();
    let appended = trim_end(current) + "\n"@ + block + "\n"@;
    match (find_spec(current, block_begin()), find_spec(current, block_end())) {
        (Some(b), Some(e)) => if e > b {
            let end_full = e + block_end().len();
            if current.subrange(b, end_full) == block {
                None
            } else {
                Some(current.take(b) + block + current.skip(end_full))
            }
        } else {
            Some(appended)
        },
        _ => Some(appended),
    }
}

/// What the marker lines and the rule are made of: neither marker holds a line
/// break, nothing before the end marker holds a `<`, and a `/` starts each
/// marker only in its first two places.
proof fn lemma_marker_chars()
    ensures
        block_begin().len() >= 4,
        block_end().len() >= 4,
        float_rule().len() >= 2,
        forall|i: int| 0 <= i < block_begin().len() ==> block_begin()[i] != '\n' && block_begin()[i] != '<',
        forall|i: int| 0 <= i < block_end().len() ==> block_end()[i] != '\n',
        forall|i: int| 0 <= i < float_rule().len() ==> float_rule()[i] != '<',
        forall|i: int| 2 <= i < block_begin().len() ==> block_begin()[i] != '/',
        forall|i: int| 2 <= i < block_end().len() ==> block_end()[i] != '/',
        block_begin()[0] == '/' && block_begin()[1] == '/' && block_begin()[2] == ' ',
        block_end()[0] == '/' && block_end()[1] == '/' && block_end()[2] == ' ' && block_end()[3] == '<',
        float_rule()[float_rule().len() - 1] == '}',
        float_rule()[float_rule().len() - 2] == '\n',
        "\n"@ == seq!['\n'],
{
    reveal_strlit("// >>> achieve floating rule (managed) - do not edit inside");
    reveal_strlit("// <<< end achieve floating rule (managed)");
    reveal_strlit(r#"window-rule {
    match title="^Achieve$"
    open-floating true
    // the glass card draws its own frame; suppress niri's ring/border/shadow
    // so a colored focus ring does not appear behind the transparent window.
    focus-ring { off; }
    border { off; }
    shadow { off; }
    // Round + clip the window to the card's radius so its corners are rounded
    // by the compositor and there's no square transparent margin around it.
    geometry-corner-radius 14
    clip-to-geometry true
}"#);
    reveal_strlit("\n");
}

/// The block without its end marker.
spec fn block_head() -> Seq<char> {
    block_begin() + "\n"@ + float_rule() + "\n"@
}

/// A config made of `x`, the current block and `z` holds the block's markers
/// first at the block itself, when no marker starts inside `x`; the update
/// then leaves it alone.
proof fn lemma_block_found(x: Seq<char>, z: Seq<char>)
    requires
        forall|j: int| 0 <= j < x.len() ==> !#[trigger] occurs_at(x + managed_block() + z, block_begin(), j),
        forall|j: int| 0 <= j < x.len() ==> !#[trigger] occurs_at(x + managed_block() + z, block_end(), j),
    ensures
        float_rule_update_spec(x + managed_block() + z) is None,
{
    lemma_marker_chars();
    let y = x + managed_block() + z;
    let h = block_head();
    let b = x.len() as int;
    let e = b + h.len();
    assert(managed_block() == h + block_end());
    assert(y.subrange(b, b + block_begin().len()) =~= block_begin());
    assert(occurs_at(y, block_begin(), b));
    lemma_find_spec_first(y, block_begin(), b);
    assert(y.subrange(e, e + block_end().len()) =~= block_end());
    assert(occurs_at(y, block_end(), e));
    assert forall|j: int| 0 <= j < e implies !#[trigger] occurs_at(y, block_end(), j) by {
        if j >= b {
            if occurs_at(y, block_end(), j) {
                assert(y.subrange(j, j + block_end().len())[3] == block_end()[3]);
                assert(y[j + 3] == '<');
                assert(y.subrange(j, j + block_end().len())[0] == block_end()[0]);
                assert(y[j] == '/');
                if j + 3 < e {
                    assert(y[j + 3] == h[j + 3 - b]);
                    let k = j + 3 - b;
                    if k < block_begin().len() {
                        assert(h[k] == block_begin()[k]);
                    } else if k == block_begin().len() {
                        assert(h[k] == '\n');
                    } else if k < block_begin().len() + 1 + float_rule().len() {
                        assert(h[k] == float_rule()[k - block_begin().len() - 1]);
                    } else {
                        assert(h[k] == '\n');
                    }
                } else {
                    let k = j - b;
                    assert(y[j] == h[k]);
                    if k == h.len() - 1 {
                        assert(h[k] == '\n');
                    } else if k == h.len() - 2 {
                        assert(h[k] == float_rule()[float_rule().len() - 1]);
                    } else {
                        assert(h[k] == float_rule()[float_rule().len() - 2]);
                    }
                }
            }
        }
    }
    lemma_find_spec_first(y, block_end(), e);
    assert(y.subrange(b, e + block_end().len()) =~= managed_block());
}

/// A marker cannot start just before the block and run into it: the block
/// opens with "//" and a space, and neither marker has a border of that shape.
proof fn lemma_no_straddle(x: Seq<char>, z: Seq<char>, p: Seq<char>, j: int)
    requires
        p == block_begin() || p == block_end(),
        0 <= j < x.len() < j + p.len(),
    ensures
        !occurs_at(x + managed_block() + z, p, j),
{
    lemma_marker_chars();
    let y = x + managed_block() + z;
    let b = x.len() as int;
    assert(y[b] == '/');
    assert(y[b + 1] == '/');
    assert(y[b + 2] == ' ');
    if occurs_at(y, p, j) {
        assert(y.subrange(j, j + p.len())[b - j] == p[b - j]);
        assert(p[b - j] == '/');
        assert(b - j == 1);
        assert(y.subrange(j, j + p.len())[2] == p[2]);
        assert(p[2] == '/');
    }
}

/// `trim_end` keeps a prefix.
proof fn lemma_trim_end_prefix(s: Seq<char>)
    ensures
        trim_end(s).len() <= s.len(),
        trim_end(s) == s.take(trim_end(s).len() as int),
    decreases s.len(),
{
    if s.len() > 0 && is_ws(s.last()) {
        lemma_trim_end_prefix(s.drop_last());
        assert(s.drop_last().take(trim_end(s).len() as int) =~= s.take(trim_end(s).len() as int));
    } else {
        assert(s.take(s.len() as int) =~= s);
    }
}

/// Updating a config the update itself wrote changes nothing more: the managed
/// block it placed is found between its markers and recognized as current.
/// Stated for configs that held both markers in order, or neither.
pub proof fn law_float_rule_update_is_idempotent(current: Seq<char>)
    requires
        float_rule_update_spec(current) is Some,
        (find_spec(current, block_begin()) matches Some(b) && find_spec(current, block_end()) matches Some(e)
            && e > b) || (!seq_contains(current, block_begin()) && !seq_contains(current, block_end())),
    ensures
        float_rule_update_spec(float_rule_update_spec(current)->0) is None,
{
    lemma_marker_chars();
    let block = managed_block();
    let fb = find_spec(current, block_begin());
    let fe = find_spec(current, block_end());
    if fb is Some && fe is Some && fe->0 > fb->0 {
        let b = fb->0;
        let e = fe->0;
        lemma_find_spec_some(current, block_begin());
        lemma_find_spec_some(current, block_end());
        let end_full = e + block_end().len();
        let x = current.take(b);
        let z = current.skip(end_full);
        let y = x + block + z;
        assert(float_rule_update_spec(current)->0 == y);
        assert forall|j: int| 0 <= j < x.len() implies !#[trigger] occurs_at(y, block_begin(), j) by {
            if j + block_begin().len() <= x.len() {
                if occurs_at(y, block_begin(), j) {
                    assert(current.subrange(j, j + block_begin().len()) =~= y.subrange(j, j + block_begin().len()));
                    assert(occurs_at(current, block_begin(), j));
                }
            } else {
                lemma_no_straddle(x, z, block_begin(), j);
            }
        }
        assert forall|j: int| 0 <= j < x.len() implies !#[trigger] occurs_at(y, block_end(), j) by {
            if j + block_end().len() <= x.len() {
                if occurs_at(y, block_end(), j) {
                    assert(current.subrange(j, j + block_end().len()) =~= y.subrange(j, j + block_end().len()));
                    assert(occurs_at(current, block_end(), j));
                }
            } else {
                lemma_no_straddle(x, z, block_end(), j);
            }
        }
        lemma_block_found(x, z);
    } else {
        lemma_trim_end_prefix(current);
        let t = trim_end(current);
        let x = t + "\n"@;
        let z = "\n"@;
        let y = x + block + z;
        lemma_find_spec_none(current, block_begin());
        assert(float_rule_update_spec(current)->0 == y);
        assert forall|j: int| 0 <= j < x.len() implies !#[trigger] occurs_at(y, block_begin(), j) by {
            let p = block_begin();
            if j + p.len() <= t.len() {
                if occurs_at(y, p, j) {
                    assert(current.subrange(j, j + p.len()) =~= y.subrange(j, j + p.len()));
                    assert(occurs_at(current, p, j));
                }
            } else if j <= t.len() {
                if occurs_at(y, p, j) {
                    assert(y.subrange(j, j + p.len())[t.len() - j] == p[t.len() - j]);
                    assert(y[t.len() as int] == '\n');
                }
            } else {
                lemma_no_straddle(x, z, p, j);
            }
        }
        assert forall|j: int| 0 <= j < x.len() implies !#[trigger] occurs_at(y, block_end(), j) by {
            let p = block_end();
            if j + p.len() <= t.len() {
                if occurs_at(y, p, j) {
                    assert(current.subrange(j, j + p.len()) =~= y.subrange(j, j + p.len()));
                    assert(occurs_at(current, p, j));
                }
            } else if j <= t.len() {
                if occurs_at(y, p, j) {
                    assert(y.subrange(j, j + p.len())[t.len() - j] == p[t.len() - j]);
                    assert(y[t.len() as int] == '\n');
                }
            } else {
                lemma_no_straddle(x, z, p, j);
            }
        }
        lemma_block_found(x, z);
    }
}

/// Decide the niri config update for the float rule (see
/// `float_rule_update_spec`).
pub fn float_rule_update(current: &str) -> (out: Option<String>)
    ensures
        ostr(out) == float_rule_update_spec(current@),
{
    let cs = chars_of(current);
    let begin = chars_of("// >>> achieve floating rule (managed) - do not edit inside");
    let end = chars_of("// <<< end achieve floating rule (managed)");
    let mut block = String::from_str("// >>> achieve floating rule (managed) - do not edit inside");
    block.append("\n");
    block.append(r#"window-rule {
    match title="^Achieve$"
    open-floating true
    // the glass card draws its own frame; suppress niri's ring/border/shadow
    // so a colored focus ring does not appear behind the transparent window.
    focus-ring { off; }
    border { off; }
    shadow { off; }
    // Round + clip the window to the card's radius so its corners are rounded
    // by the compositor and there's no square transparent margin around it.
    geometry-corner-radius 14
    clip-to-geometry true
}"#);
    block.append("\n");
    block.append("// <<< end achieve floating rule (managed)");
    let bs = chars_of(block.as_str());
    let fb = find_first(&cs, &begin);
    let fe = find_first(&cs, &end);
    if let (Some(b), Some(e)) = (fb, fe) {
        if e > b {
            let end_len = end.len();
            assert(e + end_len <= cs.len());
            let end_full = e + end_len;
            let existing = sub_chars(&cs, b, end_full);
            if chars_eq(&existing, &bs) {
                return None;
            }
            let mut out = string_of(&sub_chars(&cs, 0, b));
            out.append(block.as_str());
            out.append(string_of(&sub_chars(&cs, end_full, cs.len())).as_str());
            proof {
                assert(cs@.subrange(0, b as int) =~= cs@.take(b as int));
                assert(cs@.subrange(end_full as int, cs@.len() as int) =~= cs@.skip(end_full as int));
            }
            return Some(out);
        }
    }
    let mut out = string_of(&trimmed_end(&cs));
    out.append("\n");
    out.append(block.as_str());
    out.append("\n");
    Some(out)
}

fn join_path(base: &str, comp: &str) -> (out: String)
    ensures
        out@ == join_spec(base@, comp@),
{
    let b = chars_of(base);
    let mut s = String::from_str(base);
    if b.len() == 0 || b[b.len() - 1] == '/' {
        s.append(comp);
    } else {
        s.append("/");
        proof {
            reveal_strlit("/");
        }
        s.append(comp);
    }
    s
}

/// Where niri's config lives: under `XDG_CONFIG_HOME` when it is set and not
/// empty, else under `$HOME/.config`; nothing without either.
pub open spec fn niri_config_path_spec(xdg: Option<Seq<char>>, home: Option<Seq<char>>) -> Option<Seq<char>> {
    match xdg {
        Some(x) if x.len() > 0 => Some(join_spec(join_spec(x, "niri"@), "config.kdl"@)),
        _ => match home {
            Some(h) => Some(join_spec(join_spec(join_spec(h, ".config"@), "niri"@), "config.kdl"@)),
            None => None,
        },
    }
}

pub fn niri_config_path(xdg: Option<&str>, home: Option<&str>) -> (out: Option<String>)
    ensures
        ostr(out) == niri_config_path_spec(
            match xdg {
                Some(x) => Some(x@),
                None => None,
            },
            match home {
                Some(h) => Some(h@),
                None => None,
            },
        ),
{
    if let Some(x) = xdg {
        if chars_of(x).len() > 0 {
            let p = join_path(x, "niri");
            return Some(join_path(p.as_str(), "config.kdl"));
        }
    }
    match home {
        Some(h) => {
            let c = join_path(h, ".config");
            let n = join_path(c.as_str(), "niri");
            Some(join_path(n.as_str(), "config.kdl"))
        },
        None => None,
    }
}

} // verus!
