//! Character-level text helpers with exact specifications.

use vstd::prelude::*;

verus! {

broadcast use vstd::string::group_string_axioms;

/// The characters of `s`, in order.
pub fn chars_of(s: &str) -> (out: Vec<char>)
    ensures
        out@ == s@,
{
    let mut out: Vec<char> = Vec::new();
    for c in it: s.chars()
        invariant
            it.seq() == s@,
            out@ == s@.take(it.index() as int),
    {
        out.push(c);
        proof {
            assert(s@.take(it.index() + 1) =~= s@.take(it.index() as int).push(c));
        }
    }
    proof {
        assert(s@.take(s@.len() as int) =~= s@);
    }
    out
}


/// The string made of the characters of `v`.
/// Trusted: `String::from_iter` over the characters yields exactly those
/// characters, in order.
#[verifier::external_body]
pub(crate) fn string_of(v: &Vec<char>) -> (out: String)
    ensures
        out@ == v@,
{
    v.iter().collect()
}

/// Append the characters of `s` to `v`.
pub fn push_str(v: &mut Vec<char>, s: &str)
    ensures
        final(v)@ == old(v)@ + s@,
{
    let cs = chars_of(s);
    let mut i: usize = 0;
    while i < cs.len()
        invariant
            i <= cs.len(),
            cs@ == s@,
            v@ == old(v)@ + s@.take(i as int),
        decreases cs.len() - i,
    {
        v.push(cs[i]);
        proof {
            assert(s@.take(i + 1) =~= s@.take(i as int).push(cs@[i as int]));
        }
        i = i + 1;
    }
    proof {
        assert(s@.take(s@.len() as int) =~= s@);
    }
}

/// Append the characters of `w` to `v`.
pub fn push_chars(v: &mut Vec<char>, w: &Vec<char>)
    ensures
        final(v)@ == old(v)@ + w@,
{
    let mut i: usize = 0;
    while i < w.len()
        invariant
            i <= w.len(),
            v@ == old(v)@ + w@.take(i as int),
        decreases w.len() - i,
    {
        v.push(w[i]);
        proof {
            assert(w@.take(i + 1) =~= w@.take(i as int).push(w@[i as int]));
        }
        i = i + 1;
    }
    proof {
        assert(w@.take(w@.len() as int) =~= w@);
    }
}

/// Rust's `char::is_whitespace`: the Unicode `White_Space` property.
pub open spec fn is_ws(c: char) -> bool {
    ||| ('\u{9}' <= c && c <= '\u{d}')
    ||| c == ' '
    ||| c == '\u{85}'
    ||| c == '\u{a0}'
    ||| c == '\u{1680}'
    ||| ('\u{2000}' <= c && c <= '\u{200a}')
    ||| c == '\u{2028}'
    ||| c == '\u{2029}'
    ||| c == '\u{202f}'
    ||| c == '\u{205f}'
    ||| c == '\u{3000}'
}

pub fn char_is_ws(c: char) -> (b: bool)
    ensures
        b == is_ws(c),
{
    ('\u{9}' <= c && c <= '\u{d}') || c == ' ' || c == '\u{85}' || c == '\u{a0}' || c == '\u{1680}'
        || ('\u{2000}' <= c && c <= '\u{200a}') || c == '\u{2028}' || c == '\u{2029}'
        || c == '\u{202f}' || c == '\u{205f}' || c == '\u{3000}'
}

/// `s` without its leading whitespace (`str::trim_start`).
pub open spec fn trim_start(s: Seq<char>) -> Seq<char>
    decreases s.len(),
{
    if s.len() > 0 && is_ws(s[0]) {
        trim_start(s.drop_first())
    } else {
        s
    }
}

/// `s` without its trailing whitespace (`str::trim_end`).
pub open spec fn trim_end(s: Seq<char>) -> Seq<char>
    decreases s.len(),
{
    if s.len() > 0 && is_ws(s.last()) {
        trim_end(s.drop_last())
    } else {
        s
    }
}

/// `str::trim`.
pub open spec fn trim(s: Seq<char>) -> Seq<char> {
    trim_end(trim_start(s))
}

proof fn lemma_trim_start_skip(s: Seq<char>, i: int)
    requires
        0 <= i <= s.len(),
        forall|k: int| 0 <= k < i ==> is_ws(#[trigger] s[k]),
    ensures
        trim_start(s) == trim_start(s.skip(i)),
    decreases i,
{
    if i > 0 {
        assert(s.drop_first().skip(i - 1) =~= s.skip(i));
        lemma_trim_start_skip(s.drop_first(), i - 1);
    } else {
        assert(s.skip(0) =~= s);
    }
}

proof fn lemma_trim_end_take(s: Seq<char>, j: int)
    requires
        0 <= j <= s.len(),
        forall|k: int| j <= k < s.len() ==> is_ws(#[trigger] s[k]),
    ensures
        trim_end(s) == trim_end(s.take(j)),
    decreases s.len() - j,
{
    if j < s.len() {
        assert(s.drop_last().take(j) =~= s.take(j));
        lemma_trim_end_take(s.drop_last(), j);
    } else {
        assert(s.take(j) =~= s);
    }
}

/// The characters of `s` without leading and trailing whitespace.
pub fn trimmed(s: &Vec<char>) -> (out: Vec<char>)
    ensures
        out@ == trim(s@),
{
    let mut i: usize = 0;
    while i < s.len() && char_is_ws(s[i])
        invariant
            i <= s.len(),
            forall|k: int| 0 <= k < i ==> is_ws(#[trigger] s@[k]),
        decreases s.len() - i,
    {
        i = i + 1;
    }
    let mut j: usize = s.len();
    while j > i && char_is_ws(s[j - 1])
        invariant
            i <= j <= s.len(),
            forall|k: int| j <= k < s.len() ==> is_ws(#[trigger] s@[k]),
        decreases j,
    {
        j = j - 1;
    }
    let mut out: Vec<char> = Vec::new();
    let mut k: usize = i;
    while k < j
        invariant
            i <= k <= j <= s.len(),
            out@ == s@.subrange(i as int, k as int),
        decreases j - k,
    {
        out.push(s[k]);
        proof {
            assert(s@.subrange(i as int, k + 1) =~= s@.subrange(i as int, k as int).push(s@[k as int]));
        }
        k = k + 1;
    }
    proof {
        lemma_trim_start_skip(s@, i as int);
        let t = s@.skip(i as int);
        if i < s.len() {
            assert(!is_ws(t[0]));
            assert(trim_start(t) == t);
        } else {
            assert(t.len() == 0);
        }
        assert forall|m: int| j - i <= m < t.len() implies is_ws(#[trigger] t[m]) by {
            assert(t[m] == s@[m + i]);
        }
        lemma_trim_end_take(t, j - i);
        let u = t.take(j - i);
        assert(u =~= s@.subrange(i as int, j as int));
        if j > i {
            assert(!is_ws(u.last()));
        }
        assert(trim_end(u) == u);
    }
    out
}


pub open spec fn is_digit(c: char) -> bool {
    '0' <= c && c <= '9'
}

pub open spec fn all_digits(s: Seq<char>) -> bool {
    forall|i: int| 0 <= i < s.len() ==> is_digit(#[trigger] s[i])
}

pub open spec fn digit_val(c: char) -> int {
    (c as int) - ('0' as int)
}

/// The value of a run of decimal digits.
pub open spec fn digits_value(s: Seq<char>) -> int
    decreases s.len(),
{
    if s.len() == 0 {
        0
    } else {
        digits_value(s.drop_last()) * 10 + digit_val(s.last())
    }
}

/// Rust's integer `from_str` syntax: an optional sign, then at least one
/// ASCII digit and nothing else. `unsigned` rejects a minus sign.
pub open spec fn parse_int(s: Seq<char>, unsigned: bool) -> Option<int> {
    if s.len() > 0 && (s[0] == '+' || s[0] == '-') {
        let rest = s.drop_first();
        if rest.len() > 0 && all_digits(rest) && !(unsigned && s[0] == '-') {
            if s[0] == '-' {
                Some(-digits_value(rest))
            } else {
                Some(digits_value(rest))
            }
        } else {
            None
        }
    } else if s.len() > 0 && all_digits(s) {
        Some(digits_value(s))
    } else {
        None
    }
}

/// `s.parse::<i64>().ok()`.
pub open spec fn parse_i64_spec(s: Seq<char>) -> Option<i64> {
    match parse_int(s, false) {
        Some(v) => if i64::MIN <= v <= i64::MAX {
            Some(v as i64)
        } else {
            None
        },
        None => None,
    }
}

/// `s.parse::<u32>().ok()`.
pub open spec fn parse_u32_spec(s: Seq<char>) -> Option<u32> {
    match parse_int(s, true) {
        Some(v) => if 0 <= v <= u32::MAX {
            Some(v as u32)
        } else {
            None
        },
        None => None,
    }
}

proof fn lemma_digits_value_nonneg(s: Seq<char>)
    requires
        all_digits(s),
    ensures
        digits_value(s) >= 0,
    decreases s.len(),
{
    if s.len() > 0 {
        lemma_digits_value_nonneg(s.drop_last());
    }
}

proof fn lemma_digits_value_grows(s: Seq<char>, k: int)
    requires
        all_digits(s),
        0 <= k <= s.len(),
    ensures
        digits_value(s) >= digits_value(s.take(k)),
    decreases s.len() - k,
{
    if k < s.len() {
        assert(s.drop_last().take(k) =~= s.take(k));
        lemma_digits_value_grows(s.drop_last(), k);
        lemma_digits_value_nonneg(s.drop_last());
    } else {
        assert(s.take(k) =~= s);
    }
}

/// The value of the digits `s[from..]`, or `None` once it exceeds `2^63`
/// (or a non-digit appears).
fn digits_upto(s: &Vec<char>, from: usize) -> (out: Option<u64>)
    requires
        from <= s@.len(),
    ensures
        out matches Some(v) ==> all_digits(s@.skip(from as int)) && v == digits_value(s@.skip(from as int)),
        out is None ==> !all_digits(s@.skip(from as int)) || digits_value(s@.skip(from as int)) > 0x8000_0000_0000_0000,
{
    let ghost t = s@.skip(from as int);
    let mut acc: u64 = 0;
    let mut big = false;
    let mut i: usize = from;
    while i < s.len()
        invariant
            from <= i <= s@.len(),
            t == s@.skip(from as int),
            all_digits(t.take(i - from)),
            !big ==> acc == digits_value(t.take(i - from)),
            !big ==> acc <= 0x8000_0000_0000_0000,
            big ==> digits_value(t.take(i - from)) > 0x8000_0000_0000_0000,
        decreases s@.len() - i,
    {
        let c = s[i];
        if !('0' <= c && c <= '9') {
            proof {
                assert(t[i - from] == c);
            }
            return None;
        }
        let ghost pre = t.take(i - from);
        let ghost post = t.take(i - from + 1);
        proof {
            assert(post.drop_last() =~= pre);
            assert(post.last() == c);
            assert(all_digits(post));
            lemma_digits_value_nonneg(pre);
        }
        let d = (c as u32 - '0' as u32) as u64;
        if !big {
            if acc > 0x0CCC_CCCC_CCCC_CCCC {
                big = true;
            } else {
                let next = acc * 10 + d;
                if next > 0x8000_0000_0000_0000 {
                    big = true;
                } else {
                    acc = next;
                }
            }
        }
        i = i + 1;
    }
    proof {
        assert(t.take(i - from) =~= t);
    }
    if big {
        None
    } else {
        Some(acc)
    }
}

/// `s.parse::<i64>().ok()`: Rust's syntax, range-checked.
pub fn parse_i64(s: &Vec<char>) -> (out: Option<i64>)
    ensures
        out == parse_i64_spec(s@),
{
    if s.len() == 0 {
        return None;
    }
    let c0 = s[0];
    let neg = c0 == '-';
    let signed = c0 == '+' || c0 == '-';
    let start: usize = if signed { 1 } else { 0 };
    if signed && s.len() == 1 {
        return None;
    }
    let r = digits_upto(s, start);
    proof {
        if signed {
            assert(s@.skip(1) =~= s@.drop_first());
        } else {
            assert(s@.skip(0) =~= s@);
        }
    }
    match r {
        None => None,
        Some(v) => {
            if neg {
                if v <= 0x8000_0000_0000_0000 {
                    if v == 0x8000_0000_0000_0000 {
                        Some(i64::MIN)
                    } else {
                        Some(-(v as i64))
                    }
                } else {
                    None
                }
            } else if v <= 0x7FFF_FFFF_FFFF_FFFF {
                Some(v as i64)
            } else {
                None
            }
        },
    }
}

/// `s.parse::<u32>().ok()`.
pub fn parse_u32(s: &Vec<char>) -> (out: Option<u32>)
    ensures
        out == parse_u32_spec(s@),
{
    if s.len() == 0 {
        return None;
    }
    let c0 = s[0];
    if c0 == '-' {
        return None;
    }
    let signed = c0 == '+';
    let start: usize = if signed { 1 } else { 0 };
    if signed && s.len() == 1 {
        return None;
    }
    let r = digits_upto(s, start);
    proof {
        if signed {
            assert(s@.skip(1) =~= s@.drop_first());
        } else {
            assert(s@.skip(0) =~= s@);
        }
    }
    match r {
        None => None,
        Some(v) => if v <= 0xFFFF_FFFF {
            Some(v as u32)
        } else {
            None
        },
    }
}


pub open spec fn digit_char(d: int) -> char {
    if d == 0 { '0' }
    else if d == 1 { '1' }
    else if d == 2 { '2' }
    else if d == 3 { '3' }
    else if d == 4 { '4' }
    else if d == 5 { '5' }
    else if d == 6 { '6' }
    else if d == 7 { '7' }
    else if d == 8 { '8' }
    else { '9' }
}

/// The decimal digits of `n`, without leading zeros.
pub open spec fn nat_digits(n: nat) -> Seq<char>
    decreases n,
{
    if n < 10 {
        seq![digit_char(n as int)]
    } else {
        nat_digits(n / 10).push(digit_char((n % 10) as int))
    }
}

/// `n.to_string()` for an integer: optional minus sign, then its digits.
pub open spec fn decimal(n: int) -> Seq<char> {
    if n < 0 {
        seq!['-'] + nat_digits((-n) as nat)
    } else {
        nat_digits(n as nat)
    }
}

fn digit_of(d: u64) -> (c: char)
    requires
        d < 10,
    ensures
        c == digit_char(d as int),
{
    if d == 0 { '0' }
    else if d == 1 { '1' }
    else if d == 2 { '2' }
    else if d == 3 { '3' }
    else if d == 4 { '4' }
    else if d == 5 { '5' }
    else if d == 6 { '6' }
    else if d == 7 { '7' }
    else if d == 8 { '8' }
    else { '9' }
}

fn u64_digits(n: u64) -> (out: Vec<char>)
    ensures
        out@ == nat_digits(n as nat),
    decreases n,
{
    if n < 10 {
        let mut v: Vec<char> = Vec::new();
        v.push(digit_of(n));
        proof {
            assert(v@ =~= seq![digit_char(n as int)]);
        }
        v
    } else {
        let mut v = u64_digits(n / 10);
        v.push(digit_of(n % 10));
        v
    }
}

/// `n.to_string()`, as characters.
pub fn i64_chars(n: i64) -> (out: Vec<char>)
    ensures
        out@ == decimal(n as int),
{
    if n < 0 {
        let m: u64 = if n == i64::MIN { 0x8000_0000_0000_0000 } else { (-n) as u64 };
        let mut v: Vec<char> = Vec::new();
        v.push('-');
        let d = u64_digits(m);
        push_chars(&mut v, &d);
        proof {
            assert(v@ =~= seq!['-'] + nat_digits((-n) as nat));
        }
        v
    } else {
        u64_digits(n as u64)
    }
}

/// `n.to_string()`.
pub fn i64_string(n: i64) -> (out: String)
    ensures
        out@ == decimal(n as int),
{
    string_of(&i64_chars(n))
}

proof fn lemma_digit_char(d: int)
    requires
        0 <= d < 10,
    ensures
        digit_val(digit_char(d)) == d,
        is_digit(digit_char(d)),
{
}

proof fn lemma_nat_digits_parse(n: nat)
    ensures
        all_digits(nat_digits(n)),
        digits_value(nat_digits(n)) == n,
        nat_digits(n).len() > 0,
    decreases n,
{
    if n >= 10 {
        lemma_nat_digits_parse(n / 10);
        lemma_digit_char((n % 10) as int);
        let s = nat_digits(n);
        assert(s.drop_last() =~= nat_digits(n / 10));
        assert(s.last() == digit_char((n % 10) as int));
        assert(digits_value(s) == digits_value(s.drop_last()) * 10 + digit_val(s.last()));
        assert((n / 10) * 10 + n % 10 == n) by (nonlinear_arith);
    } else {
        lemma_digit_char(n as int);
        let s = nat_digits(n);
        assert(s.drop_last() =~= Seq::<char>::empty());
        assert(digits_value(s) == digits_value(s.drop_last()) * 10 + digit_val(s.last()));
    }
}

/// Reading back what `to_string` wrote gives the same number.
pub proof fn lemma_decimal_round_trip(n: int)
    ensures
        parse_int(decimal(n), false) == Some(n),
{
    lemma_nat_digits_parse(if n < 0 { (-n) as nat } else { n as nat });
    let d = decimal(n);
    if n < 0 {
        assert(d.drop_first() =~= nat_digits((-n) as nat));
    } else {
        let s = nat_digits(n as nat);
        assert(is_digit(s[0]));
    }
}


/// The HTML-escaped form of one character.
pub open spec fn esc_char(c: char) -> Seq<char> {
    if c == '&' {
        seq!['&', 'a', 'm', 'p', ';']
    } else if c == '<' {
        seq!['&', 'l', 't', ';']
    } else if c == '>' {
        seq!['&', 'g', 't', ';']
    } else if c == '"' {
        seq!['&', 'q', 'u', 'o', 't', ';']
    } else {
        seq![c]
    }
}

/// Minimal HTML escaping: `&`, `<`, `>` and `"` become entities.
pub open spec fn esc_seq(s: Seq<char>) -> Seq<char>
    decreases s.len(),
{
    if s.len() == 0 {
        Seq::empty()
    } else {
        esc_seq(s.drop_last()) + esc_char(s.last())
    }
}

/// Minimal HTML escaping for user-supplied text (task titles, pause notes).
pub fn esc(s: &str) -> (out: String)
    ensures
        out@ == esc_seq(s@),
{
    let cs = chars_of(s);
    let mut v: Vec<char> = Vec::new();
    let mut i: usize = 0;
    while i < cs.len()
        invariant
            i <= cs.len(),
            v@ == esc_seq(cs@.take(i as int)),
        decreases cs.len() - i,
    {
        let c = cs[i];
        let ghost pre = v@;
        if c == '&' {
            v.push('&'); v.push('a'); v.push('m'); v.push('p'); v.push(';');
        } else if c == '<' {
            v.push('&'); v.push('l'); v.push('t'); v.push(';');
        } else if c == '>' {
            v.push('&'); v.push('g'); v.push('t'); v.push(';');
        } else if c == '"' {
            v.push('&'); v.push('q'); v.push('u'); v.push('o'); v.push('t'); v.push(';');
        } else {
            v.push(c);
        }
        proof {
            let t = cs@.take(i + 1);
            assert(t.drop_last() =~= cs@.take(i as int));
            assert(v@ =~= pre + esc_char(c));
        }
        i = i + 1;
    }
    proof {
        assert(cs@.take(cs@.len() as int) =~= cs@);
    }
    string_of(&v)
}

/// Escaped text never carries a raw `<`, `>` or `"`, so it cannot open a tag or
/// close an attribute.
pub proof fn lemma_esc_is_inert(s: Seq<char>)
    ensures
        forall|i: int| 0 <= i < esc_seq(s).len() ==> {
            let c = #[trigger] esc_seq(s)[i];
            c != '<' && c != '>' && c != '"'
        },
    decreases s.len(),
{
    if s.len() > 0 {
        lemma_esc_is_inert(s.drop_last());
        let a = esc_seq(s.drop_last());
        let b = esc_char(s.last());
        assert forall|i: int| 0 <= i < esc_seq(s).len() implies {
            let c = #[trigger] esc_seq(s)[i];
            c != '<' && c != '>' && c != '"'
        } by {
            if i < a.len() {
                assert(esc_seq(s)[i] == a[i]);
            } else {
                assert(esc_seq(s)[i] == b[i - a.len()]);
            }
        }
    }
}

/// ASCII-only lowercase of one character (`char::to_ascii_lowercase`).
pub open spec fn ascii_lower(c: char) -> char {
    if 'A' <= c && c <= 'Z' {
        ((c as u32) + 32) as char
    } else {
        c
    }
}

pub open spec fn ascii_lower_seq(s: Seq<char>) -> Seq<char> {
    s.map_values(|c: char| ascii_lower(c))
}

fn lower_char(c: char) -> (out: char)
    ensures
        out == ascii_lower(c),
{
    if 'A' <= c && c <= 'Z' {
        let u = (c as u8) + 32;
        u as char
    } else {
        c
    }
}

/// `str::to_ascii_lowercase`, as characters.
pub fn ascii_lowercase(s: &Vec<char>) -> (out: Vec<char>)
    ensures
        out@ == ascii_lower_seq(s@),
{
    let mut v: Vec<char> = Vec::new();
    let mut i: usize = 0;
    while i < s.len()
        invariant
            i <= s.len(),
            v@ == ascii_lower_seq(s@.take(i as int)),
        decreases s.len() - i,
    {
        v.push(lower_char(s[i]));
        proof {
            assert(ascii_lower_seq(s@.take(i + 1)) =~= ascii_lower_seq(s@.take(i as int)).push(ascii_lower(s@[i as int])));
        }
        i = i + 1;
    }
    proof {
        assert(s@.take(s@.len() as int) =~= s@);
    }
    v
}

/// `pat` occurs in `s` starting at position `i`.
pub open spec fn occurs_at(s: Seq<char>, pat: Seq<char>, i: int) -> bool {
    0 <= i && i + pat.len() <= s.len() && s.subrange(i, i + pat.len()) == pat
}

/// `str::contains` with a string pattern.
pub open spec fn seq_contains(s: Seq<char>, pat: Seq<char>) -> bool {
    exists|i: int| #[trigger] occurs_at(s, pat, i)
}

fn matches_at(s: &Vec<char>, pat: &Vec<char>, i: usize) -> (b: bool)
    requires
        i <= s@.len(),
    ensures
        b == occurs_at(s@, pat@, i as int),
{
    if pat.len() > s.len() - i {
        return false;
    }
    let mut k: usize = 0;
    while k < pat.len()
        invariant
            k <= pat@.len(),
            i + pat@.len() <= s.len(),
            forall|m: int| 0 <= m < k ==> s@[i + m] == pat@[m],
        decreases pat@.len() - k,
    {
        if s[i + k] != pat[k] {
            proof {
                assert(s@.subrange(i as int, i + pat@.len())[k as int] != pat@[k as int]);
            }
            return false;
        }
        k = k + 1;
    }
    proof {
        assert(s@.subrange(i as int, i + pat@.len()) =~= pat@);
    }
    true
}

/// The first position at which `pat` occurs in `s` (`str::find`).
pub fn find(s: &Vec<char>, pat: &Vec<char>) -> (out: Option<usize>)
    ensures
        out matches Some(i) ==> occurs_at(s@, pat@, i as int) && forall|j: int| 0 <= j < i ==> !#[trigger] occurs_at(s@, pat@, j),
        out is None ==> !seq_contains(s@, pat@),
{
    let mut i: usize = 0;
    while i < s.len()
        invariant
            i <= s@.len(),
            forall|j: int| 0 <= j < i ==> !#[trigger] occurs_at(s@, pat@, j),
        decreases s@.len() - i,
    {
        if matches_at(s, pat, i) {
            return Some(i);
        }
        i = i + 1;
    }
    if matches_at(s, pat, i) {
        return Some(i);
    }
    proof {
        assert forall|j: int| !#[trigger] occurs_at(s@, pat@, j) by {
            if 0 <= j && j < i {
            }
        }
    }
    None
}

/// `str::contains`.
pub fn contains(s: &Vec<char>, pat: &Vec<char>) -> (b: bool)
    ensures
        b == seq_contains(s@, pat@),
{
    find(s, pat).is_some()
}


/// The first position of `c` in `s`.
pub open spec fn first_index(s: Seq<char>, c: char) -> Option<int> {
    if exists|i: int| 0 <= i < s.len() && s[i] == c {
        Some(choose|i: int| 0 <= i < s.len() && s[i] == c && forall|j: int| 0 <= j < i ==> s[j] != c)
    } else {
        None
    }
}

/// The text before the first `c` (all of `s` when there is none): the first
/// item of `str::split(c)`.
pub open spec fn before_first(s: Seq<char>, c: char) -> Seq<char> {
    match first_index(s, c) {
        Some(i) => s.take(i),
        None => s,
    }
}

/// The text after the first `c`, if there is one.
pub open spec fn after_first(s: Seq<char>, c: char) -> Option<Seq<char>> {
    match first_index(s, c) {
        Some(i) => Some(s.skip(i + 1)),
        None => None,
    }
}

/// The first and second items of `s.split(c)`.
pub open spec fn split2(s: Seq<char>, c: char) -> (Seq<char>, Option<Seq<char>>) {
    (
        before_first(s, c),
        match after_first(s, c) {
            Some(rest) => Some(before_first(rest, c)),
            None => None,
        },
    )
}

/// Position of the first `c` in `s`.
pub fn index_of(s: &Vec<char>, c: char) -> (out: Option<usize>)
    ensures
        out matches Some(i) ==> first_index(s@, c) == Some(i as int) && i < s@.len() && s@[i as int] == c
            && forall|j: int| 0 <= j < i ==> s@[j] != c,
        out is None ==> first_index(s@, c) is None,
{
    let mut i: usize = 0;
    while i < s.len()
        invariant
            i <= s@.len(),
            forall|j: int| 0 <= j < i ==> s@[j] != c,
        decreases s@.len() - i,
    {
        if s[i] == c {
            proof {
                let k = choose|k: int| 0 <= k < s@.len() && s@[k] == c && forall|j: int| 0 <= j < k ==> s@[j] != c;
                if k < i {
                } else if k > i {
                    assert(s@[i as int] == c);
                }
            }
            return Some(i);
        }
        i = i + 1;
    }
    None
}

/// `s[from..to]` as a new vector.
pub fn sub_chars(s: &Vec<char>, from: usize, to: usize) -> (out: Vec<char>)
    requires
        from <= to <= s@.len(),
    ensures
        out@ == s@.subrange(from as int, to as int),
{
    let mut out: Vec<char> = Vec::new();
    let mut k: usize = from;
    while k < to
        invariant
            from <= k <= to <= s@.len(),
            out@ == s@.subrange(from as int, k as int),
        decreases to - k,
    {
        out.push(s[k]);
        proof {
            assert(s@.subrange(from as int, k + 1) =~= s@.subrange(from as int, k as int).push(s@[k as int]));
        }
        k = k + 1;
    }
    out
}

/// The first two items of `s.split(c)`.
pub fn split_two(s: &Vec<char>, c: char) -> (out: (Vec<char>, Option<Vec<char>>))
    ensures
        out.0@ == split2(s@, c).0,
        match out.1 {
            Some(v) => split2(s@, c).1 == Some(v@),
            None => split2(s@, c).1 is None,
        },
{
    match index_of(s, c) {
        None => {
            let first = sub_chars(s, 0, s.len());
            proof {
                assert(s@.subrange(0, s@.len() as int) =~= s@);
            }
            (first, None)
        },
        Some(i) => {
            assert(i < s.len());
            let first = sub_chars(s, 0, i);
            let rest = sub_chars(s, i + 1, s.len());
            proof {
                assert(s@.subrange(0, i as int) =~= s@.take(i as int));
                assert(s@.subrange(i + 1, s@.len() as int) =~= s@.skip(i + 1));
            }
            let second = match index_of(&rest, c) {
                None => rest,
                Some(j) => {
                    let r = sub_chars(&rest, 0, j);
                    proof {
                        assert(rest@.subrange(0, j as int) =~= rest@.take(j as int));
                    }
                    r
                },
            };
            (first, Some(second))
        },
    }
}

/// Character-wise equality.
pub fn chars_eq(a: &Vec<char>, b: &Vec<char>) -> (out: bool)
    ensures
        out == (a@ == b@),
{
    if a.len() != b.len() {
        return false;
    }
    let mut i: usize = 0;
    while i < a.len()
        invariant
            i <= a@.len(),
            a@.len() == b@.len(),
            forall|j: int| 0 <= j < i ==> a@[j] == b@[j],
        decreases a@.len() - i,
    {
        if a[i] != b[i] {
            return false;
        }
        i = i + 1;
    }
    proof {
        assert(a@ =~= b@);
    }
    true
}

/// `a == b` for string slices.
pub fn str_eq(a: &str, b: &str) -> (out: bool)
    ensures
        out == (a@ == b@),
{
    chars_eq(&chars_of(a), &chars_of(b))
}

/// `s` begins with `p` (`str::starts_with`).
pub open spec fn has_prefix(s: Seq<char>, p: Seq<char>) -> bool {
    p.len() <= s.len() && s.take(p.len() as int) == p
}

pub fn starts_with(s: &Vec<char>, p: &Vec<char>) -> (out: bool)
    ensures
        out == has_prefix(s@, p@),
{
    let r = matches_at(s, p, 0);
    proof {
        if p@.len() <= s@.len() {
            assert(s@.take(p@.len() as int) =~= s@.subrange(0, p@.len() as int));
        }
    }
    r
}

/// Lexicographic order on characters, which is the byte order of `str`
/// (UTF-8 preserves code-point order).
pub open spec fn seq_lt(a: Seq<char>, b: Seq<char>) -> bool
    decreases a.len(),
{
    if a.len() == 0 {
        b.len() > 0
    } else if b.len() == 0 {
        false
    } else if a[0] != b[0] {
        a[0] < b[0]
    } else {
        seq_lt(a.drop_first(), b.drop_first())
    }
}

/// `a < b` for strings.
pub fn chars_lt(a: &Vec<char>, b: &Vec<char>) -> (out: bool)
    ensures
        out == seq_lt(a@, b@),
{
    let mut i: usize = 0;
    proof {
        assert(a@.skip(0) =~= a@);
        assert(b@.skip(0) =~= b@);
    }
    while i < a.len() && i < b.len() && a[i] == b[i]
        invariant
            i <= a@.len(),
            i <= b@.len(),
            seq_lt(a@, b@) == seq_lt(a@.skip(i as int), b@.skip(i as int)),
        decreases a@.len() - i,
    {
        proof {
            assert(a@.skip(i as int).drop_first() =~= a@.skip(i + 1));
            assert(b@.skip(i as int).drop_first() =~= b@.skip(i + 1));
        }
        i = i + 1;
    }
    let ghost sa = a@.skip(i as int);
    let ghost sb = b@.skip(i as int);
    if i == a.len() {
        proof {
            assert(sa.len() == 0);
        }
        i < b.len()
    } else if i == b.len() {
        false
    } else {
        proof {
            assert(sa[0] == a@[i as int]);
            assert(sb[0] == b@[i as int]);
        }
        a[i] < b[i]
    }
}


/// The `n`-th item of `s.split(c)`, if there are that many.
pub open spec fn split_nth(s: Seq<char>, c: char, n: nat) -> Option<Seq<char>>
    decreases n,
{
    if n == 0 {
        Some(before_first(s, c))
    } else {
        match after_first(s, c) {
            Some(rest) => split_nth(rest, c, (n - 1) as nat),
            None => None,
        }
    }
}

/// The `n`-th item of `s.split(c)` (`split(c).nth(n)`).
pub fn nth_item(s: &Vec<char>, c: char, n: usize) -> (out: Option<Vec<char>>)
    ensures
        match out {
            Some(v) => split_nth(s@, c, n as nat) == Some(v@),
            None => split_nth(s@, c, n as nat) is None,
        },
    decreases n,
{
    match index_of(s, c) {
        None => {
            if n == 0 {
                let v = sub_chars(s, 0, s.len());
                proof {
                    assert(s@.subrange(0, s@.len() as int) =~= s@);
                }
                Some(v)
            } else {
                None
            }
        },
        Some(i) => {
            assert(i < s.len());
            if n == 0 {
                let v = sub_chars(s, 0, i);
                proof {
                    assert(s@.subrange(0, i as int) =~= s@.take(i as int));
                }
                Some(v)
            } else {
                let rest = sub_chars(s, i + 1, s.len());
                proof {
                    assert(s@.subrange(i + 1, s@.len() as int) =~= s@.skip(i + 1));
                }
                nth_item(&rest, c, n - 1)
            }
        },
    }
}

/// The text after the last `c` (all of `s` when there is none): the first item
/// of `str::rsplit(c)`.
pub open spec fn after_last(s: Seq<char>, c: char) -> Seq<char>
    decreases s.len(),
{
    if s.len() == 0 {
        s
    } else if s.last() == c {
        Seq::empty()
    } else {
        after_last(s.drop_last(), c).push(s.last())
    }
}

pub proof fn lemma_after_last_take(s: Seq<char>, c: char, j: int)
    requires
        0 <= j <= s.len(),
        forall|k: int| j <= k < s.len() ==> s[k] != c,
        j == 0 || s[j - 1] == c,
    ensures
        after_last(s, c) == s.skip(j),
    decreases s.len() - j,
{
    if j < s.len() {
        lemma_after_last_take(s.drop_last(), c, j);
        assert(s.drop_last().skip(j).push(s.last()) =~= s.skip(j));
    } else {
        if s.len() > 0 {
            assert(s.last() == c);
        }
        assert(s.skip(j) =~= Seq::<char>::empty());
    }
}

/// The text after the last `c` in `s` (`s.rsplit(c).next()`).
pub fn tail_after(s: &Vec<char>, c: char) -> (out: Vec<char>)
    ensures
        out@ == after_last(s@, c),
{
    let mut j: usize = s.len();
    while j > 0 && s[j - 1] != c
        invariant
            j <= s@.len(),
            forall|k: int| j <= k < s@.len() ==> s@[k] != c,
        decreases j,
    {
        j = j - 1;
    }
    proof {
        lemma_after_last_take(s@, c, j as int);
        assert(s@.subrange(j as int, s@.len() as int) =~= s@.skip(j as int));
    }
    sub_chars(s, j, s.len())
}

/// The Unicode lowercase mapping of a whole string, as `str::to_lowercase`
/// computes it from the characters alone.
pub uninterp spec fn lowercase(s: Seq<char>) -> Seq<char>;

/// Trusted: std's `str::to_lowercase`. The contract only names the result as a
/// function of the input characters; the Unicode tables behind it are not
/// restated here.
#[verifier::external_body]
pub(crate) fn to_lowercase(s: &str) -> (out: String)
    ensures
        out@ == lowercase(s@),
{
    s.to_lowercase()
}

/// The Unicode uppercase mapping of one character (one or more characters),
/// as `char::to_uppercase` yields it.
pub uninterp spec fn uppercase(c: char) -> Seq<char>;

/// Trusted: std's `char::to_uppercase`, collected into a string. The contract
/// names the result as a function of `c`; the mapping itself is not restated.
#[verifier::external_body]
pub(crate) fn char_uppercase(c: char) -> (out: String)
    ensures
        out@ == uppercase(c),
{
    c.to_uppercase().collect()
}

/// The words of `s`, as `str::split_whitespace` yields them.
pub open spec fn words(s: Seq<char>) -> Seq<Seq<char>>
    decreases s.len(),
{
    if s.len() == 0 {
        Seq::empty()
    } else {
        let w = words(s.drop_last());
        let c = s.last();
        if is_ws(c) {
            w
        } else if s.len() >= 2 && !is_ws(s[s.len() - 2]) {
            w.drop_last().push(w.last().push(c))
        } else {
            w.push(seq![c])
        }
    }
}

proof fn lemma_words_open(s: Seq<char>)
    requires
        s.len() > 0,
        !is_ws(s.last()),
    ensures
        words(s).len() > 0,
    decreases s.len(),
{
}

/// The character sequences held by a vector of character vectors.
pub open spec fn views(v: Seq<Vec<char>>) -> Seq<Seq<char>> {
    Seq::new(v.len(), |i: int| v[i]@)
}

/// Split `s` into its whitespace-separated words.
pub fn split_words(s: &Vec<char>) -> (out: Vec<Vec<char>>)
    ensures
        views(out@) == words(s@),
{
    let mut out: Vec<Vec<char>> = Vec::new();
    let mut i: usize = 0;
    while i < s.len()
        invariant
            i <= s.len(),
            views(out@) == words(s@.take(i as int)),
        decreases s.len() - i,
    {
        let c = s[i];
        let ghost pre = views(out@);
        proof {
            assert(s@.take(i + 1).drop_last() =~= s@.take(i as int));
            if i > 0 && !is_ws(s@[i - 1]) {
                assert(s@.take(i as int).last() == s@[i - 1]);
                lemma_words_open(s@.take(i as int));
            }
        }
        if char_is_ws(c) {
        } else if i > 0 && !char_is_ws(s[i - 1]) {
            let mut last = out.pop().unwrap();
            last.push(c);
            out.push(last);
            proof {
                assert(s@.take(i + 1)[i - 1] == s@[i - 1]);
                assert(views(out@) =~= pre.drop_last().push(pre.last().push(c)));
            }
        } else {
            let mut w: Vec<char> = Vec::new();
            w.push(c);
            out.push(w);
            proof {
                if i > 0 {
                    assert(s@.take(i + 1)[i - 1] == s@[i - 1]);
                }
                assert(views(out@) =~= pre.push(seq![c]));
            }
        }
        i = i + 1;
    }
    proof {
        assert(s@.take(s@.len() as int) =~= s@);
    }
    out
}

/// The parts joined with `sep` between them (`[..].join(sep)`).
pub open spec fn join(parts: Seq<Seq<char>>, sep: Seq<char>) -> Seq<char>
    decreases parts.len(),
{
    if parts.len() == 0 {
        Seq::empty()
    } else if parts.len() == 1 {
        parts[0]
    } else {
        join(parts.drop_last(), sep) + sep + parts.last()
    }
}

/// `s` with every `'-'` and `'_'` replaced by a space (`replace(['-', '_'], " ")`).
pub open spec fn dashes_to_spaces(s: Seq<char>) -> Seq<char> {
    Seq::new(s.len(), |i: int| if s[i] == '-' || s[i] == '_' { ' ' } else { s[i] })
}

pub fn replace_dashes(s: &Vec<char>) -> (out: Vec<char>)
    ensures
        out@ == dashes_to_spaces(s@),
{
    let mut out: Vec<char> = Vec::new();
    let mut i: usize = 0;
    while i < s.len()
        invariant
            i <= s.len(),
            out@ == dashes_to_spaces(s@).take(i as int),
        decreases s.len() - i,
    {
        let c = s[i];
        out.push(if c == '-' || c == '_' { ' ' } else { c });
        proof {
            assert(out@ =~= dashes_to_spaces(s@).take(i + 1));
        }
        i = i + 1;
    }
    proof {
        assert(dashes_to_spaces(s@).take(s@.len() as int) =~= dashes_to_spaces(s@));
    }
    out
}

/// The pieces of `s.split(c)`, in order (always at least one).
pub open spec fn split_all(s: Seq<char>, c: char) -> Seq<Seq<char>>
    decreases s.len(),
{
    if s.len() == 0 {
        seq![Seq::empty()]
    } else {
        let w = split_all(s.drop_last(), c);
        if s.last() == c {
            w.push(Seq::empty())
        } else {
            w.drop_last().push(w.last().push(s.last()))
        }
    }
}

pub proof fn lemma_split_all_nonempty(s: Seq<char>, c: char)
    ensures
        split_all(s, c).len() > 0,
    decreases s.len(),
{
    if s.len() > 0 {
        lemma_split_all_nonempty(s.drop_last(), c);
    }
}

/// `str::split_once(c)`: the text before and after the first `c`.
pub fn split_once(s: &Vec<char>, c: char) -> (out: Option<(Vec<char>, Vec<char>)>)
    ensures
        match out {
            Some(p) => after_first(s@, c) == Some(p.1@) && p.0@ == before_first(s@, c),
            None => after_first(s@, c) is None,
        },
{
    match index_of(s, c) {
        Some(i) => {
            assert(i < s.len());
            let a = sub_chars(s, 0, i);
            let b = sub_chars(s, i + 1, s.len());
            proof {
                assert(a@ =~= s@.take(i as int));
                assert(b@ =~= s@.skip(i + 1));
            }
            Some((a, b))
        },
        None => None,
    }
}

/// The characters of `s` without trailing whitespace (`str::trim_end`).
pub fn trimmed_end(s: &Vec<char>) -> (out: Vec<char>)
    ensures
        out@ == trim_end(s@),
{
    let mut j: usize = s.len();
    while j > 0 && char_is_ws(s[j - 1])
        invariant
            j <= s.len(),
            forall|k: int| j <= k < s.len() ==> is_ws(#[trigger] s@[k]),
        decreases j,
    {
        j = j - 1;
    }
    proof {
        lemma_trim_end_take(s@, j as int);
        let u = s@.take(j as int);
        if j > 0 {
            assert(!is_ws(u.last()));
        }
        assert(trim_end(u) == u);
        assert(s@.subrange(0, j as int) =~= u);
    }
    sub_chars(s, 0, j)
}

/// The first position at which `pat` occurs in `s`, if any.
pub closed spec fn find_spec(s: Seq<char>, pat: Seq<char>) -> Option<int> {
    if seq_contains(s, pat) {
        Some(choose|i: int| occurs_at(s, pat, i) && forall|j: int| 0 <= j < i ==> !#[trigger] occurs_at(s, pat, j))
    } else {
        None
    }
}

/// `str::find` with a string pattern, stated through `find_spec`.
pub fn find_first(s: &Vec<char>, pat: &Vec<char>) -> (out: Option<usize>)
    ensures
        match out {
            Some(i) => find_spec(s@, pat@) == Some(i as int) && i + pat@.len() <= s@.len(),
            None => find_spec(s@, pat@) is None,
        },
{
    let r = find(s, pat);
    match r {
        Some(i) => {
            proof {
                assert(occurs_at(s@, pat@, i as int));
                assert(seq_contains(s@, pat@));
                let k = choose|k: int| occurs_at(s@, pat@, k) && forall|j: int| 0 <= j < k ==> !#[trigger] occurs_at(s@, pat@, j);
                if k < i {
                    assert(!occurs_at(s@, pat@, k));
                } else if k > i {
                    assert(!occurs_at(s@, pat@, i as int));
                }
            }
            Some(i)
        },
        None => None,
    }
}

/// `find_spec` is the first occurrence: an occurrence with none before it.
pub proof fn lemma_find_spec_first(s: Seq<char>, pat: Seq<char>, i: int)
    requires
        occurs_at(s, pat, i),
        forall|j: int| 0 <= j < i ==> !#[trigger] occurs_at(s, pat, j),
    ensures
        find_spec(s, pat) == Some(i),
{
    assert(seq_contains(s, pat));
    let k = choose|k: int| occurs_at(s, pat, k) && forall|j: int| 0 <= j < k ==> !#[trigger] occurs_at(s, pat, j);
    if k < i {
        assert(!occurs_at(s, pat, k));
    } else if k > i {
        assert(!occurs_at(s, pat, i));
    }
}

proof fn lemma_min_occurrence(s: Seq<char>, pat: Seq<char>, i: int)
    requires
        occurs_at(s, pat, i),
    ensures
        exists|k: int| occurs_at(s, pat, k) && forall|j: int| 0 <= j < k ==> !#[trigger] occurs_at(s, pat, j),
    decreases i,
{
    if exists|j: int| 0 <= j < i && #[trigger] occurs_at(s, pat, j) {
        let j = choose|j: int| 0 <= j < i && #[trigger] occurs_at(s, pat, j);
        lemma_min_occurrence(s, pat, j);
    } else {
        assert(forall|j: int| 0 <= j < i ==> !#[trigger] occurs_at(s, pat, j));
    }
}

/// `find_spec` finds an occurrence, with none before it.
pub proof fn lemma_find_spec_some(s: Seq<char>, pat: Seq<char>)
    requires
        find_spec(s, pat) is Some,
    ensures
        occurs_at(s, pat, find_spec(s, pat)->0),
        forall|j: int| 0 <= j < find_spec(s, pat)->0 ==> !#[trigger] occurs_at(s, pat, j),
{
    let i = choose|i: int| #[trigger] occurs_at(s, pat, i);
    lemma_min_occurrence(s, pat, i);
}

/// Without an occurrence, `find_spec` finds nothing.
pub proof fn lemma_find_spec_none(s: Seq<char>, pat: Seq<char>)
    requires
        forall|j: int| !#[trigger] occurs_at(s, pat, j),
    ensures
        find_spec(s, pat) is None,
{
}

} // verus!
