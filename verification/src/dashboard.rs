//! The pure side of the history dashboard: windows, buckets, the day timeline
//! and the ordering of every breakdown.

use vstd::prelude::*;

use crate::ledger::{clamp, clamp_i64, max0, parse_hhmm_min, hhmm_spec, weekday_short, weekday_name};
use crate::model::{AppStat, Bar, CategoryStat, PauseStat, PlannedActual, TimelineSpan};
use crate::sorting::{is_stable_sort, key_le, stable_arrangement, stable_sort_by_key};
use crate::text::{after_last, lemma_after_last_take, chars_of, decimal, i64_string, str_eq, string_of, sub_chars};

verus! {

broadcast use vstd::string::group_string_axioms;

pub open spec fn period_spec(p: Seq<char>) -> Seq<char> {
    if p == "week"@ {
        "week"@
    } else if p == "month"@ {
        "month"@
    } else {
        "day"@
    }
}

/// The dashboard period: `week`, `month`, or `day` for anything else.
pub fn normalize_period(period: &str) -> (out: String)
    ensures
        out@ == period_spec(period@),
{
    if str_eq(period, "week") {
        String::from_str("week")
    } else if str_eq(period, "month") {
        String::from_str("month")
    } else {
        String::from_str("day")
    }
}

/// The window a dashboard request asks for: the normalized period and the
/// offset, never negative (periods back from the current one).
pub open spec fn dashboard_window_spec(period: Seq<char>, offset: int) -> (Seq<char>, int) {
    (period_spec(period), if offset >= 0 { offset } else { 0 })
}

/// The normalized period and offset of a dashboard request; the dashboard is
/// computed from these alone.
pub fn dashboard_window(period: &str, offset: i64) -> (out: (String, i64))
    ensures
        (out.0@, out.1 as int) == dashboard_window_spec(period@, offset as int),
{
    let off: i64 = if offset >= 0 { offset } else { 0 };
    (normalize_period(period), off)
}

/// A request already in normal form asks for the same window: asking for
/// `(period, offset)` and for its normalized `(p, max(offset, 0))` gives the
/// same dashboard, whose period is `p`.
pub proof fn law_dashboard_window_is_normal(period: Seq<char>, offset: int)
    ensures
        ({
            let (p, o) = dashboard_window_spec(period, offset);
            &&& dashboard_window_spec(p, o) == (p, o)
            &&& (p == "day"@ || p == "week"@ || p == "month"@)
            &&& o >= 0
        }),
{
}

/// Days back from today to the start of the calendar week `offset` weeks ago,
/// weeks starting on `week_start` (0 = Sunday .. 6 = Saturday).
pub fn week_back_days(today_dow: i64, week_start: i64, offset: i64) -> (out: i64)
    requires
        0 <= today_dow <= 6,
        0 <= week_start <= 6,
        0 <= offset,
        offset * 7 + 6 <= i64::MAX,
    ensures
        out == (today_dow - week_start + 7) % 7 + offset * 7,
        offset * 7 <= out <= offset * 7 + 6,
{
    (today_dow - week_start + 7) % 7 + offset * 7
}

/// A SQLite date modifier `±N unit`.
pub fn date_modifier(negative: bool, n: i64, unit: &str) -> (out: String)
    ensures
        out@ == (if negative { "-"@ } else { "+"@ }) + decimal(n as int) + " "@ + unit@,
{
    let mut s = if negative { String::from_str("-") } else { String::from_str("+") };
    s.append(i64_string(n).as_str());
    s.append(" ");
    s.append(unit);
    s
}

/// `s` without its leading `'0'`s (`trim_start_matches('0')`).
pub open spec fn strip_zeros(s: Seq<char>) -> Seq<char>
    decreases s.len(),
{
    if s.len() > 0 && s[0] == '0' {
        strip_zeros(s.drop_first())
    } else {
        s
    }
}

proof fn lemma_strip_zeros_skip(s: Seq<char>, i: int)
    requires
        0 <= i <= s.len(),
        forall|k: int| 0 <= k < i ==> s[k] == '0',
    ensures
        strip_zeros(s) == strip_zeros(s.skip(i)),
    decreases i,
{
    if i > 0 {
        assert(s.drop_first().skip(i - 1) =~= s.skip(i));
        lemma_strip_zeros_skip(s.drop_first(), i - 1);
    } else {
        assert(s.skip(0) =~= s);
    }
}

/// The month chart's bar label: the day of the month of a `YYYY-MM-DD` date,
/// without leading zeros.
pub fn month_day_label(date: &str) -> (out: String)
    ensures
        out@ == strip_zeros(after_last(date@, '-')),
{
    let cs = chars_of(date);
    let mut j: usize = cs.len();
    while j > 0 && cs[j - 1] != '-'
        invariant
            j <= cs@.len(),
            forall|k: int| j <= k < cs@.len() ==> cs@[k] != '-',
        decreases j,
    {
        j = j - 1;
    }
    proof {
        lemma_after_last_take(cs@, '-', j as int);
    }
    let mut i: usize = j;
    while i < cs.len() && cs[i] == '0'
        invariant
            j <= i <= cs@.len(),
            forall|k: int| j <= k < i ==> cs@[k] == '0',
        decreases cs@.len() - i,
    {
        i = i + 1;
    }
    let tail = sub_chars(&cs, i, cs.len());
    proof {
        let t = cs@.skip(j as int);
        assert forall|k: int| 0 <= k < i - j implies t[k] == '0' by {
            assert(t[k] == cs@[k + j]);
        }
        lemma_strip_zeros_skip(t, i - j);
        assert(t.skip(i - j) =~= cs@.subrange(i as int, cs@.len() as int));
        let u = t.skip(i - j);
        if u.len() > 0 {
            assert(u[0] == cs@[i as int]);
        }
    }
    string_of(&tail)
}

pub open spec fn top_spec(cat: Option<(Seq<char>, Seq<char>, int)>, untr: int, away: int) -> (Seq<char>, Seq<char>) {
    let cat_mins = match cat {
        Some(c) => c.2,
        None => 0,
    };
    if cat_mins >= untr && cat_mins >= away && cat_mins > 0 {
        match cat {
            Some(c) => (c.0, c.1),
            None => (Seq::empty(), Seq::empty()),
        }
    } else if untr >= away && untr > 0 {
        ("Untracked"@, "#9aa0aa"@)
    } else if away > 0 {
        ("Away"@, "#c3c7cf"@)
    } else {
        (Seq::empty(), Seq::empty())
    }
}

pub open spec fn cat_view(cat: Option<(String, String, i64)>) -> Option<(Seq<char>, Seq<char>, int)> {
    match cat {
        Some(c) => Some((c.0@, c.1@, c.2 as int)),
        None => None,
    }
}

/// A bucket's dominant label and color: its top category, unless untracked or
/// away time outweighs it.
pub fn pick_top(cat: Option<(String, String, i64)>, untr: i64, away: i64) -> (out: (String, String))
    ensures
        (out.0@, out.1@) == top_spec(cat_view(cat), untr as int, away as int),
{
    let cat_mins = match &cat {
        Some(c) => c.2,
        None => 0,
    };
    if cat_mins >= untr && cat_mins >= away && cat_mins > 0 {
        match cat {
            Some(c) => (c.0, c.1),
            None => (String::new(), String::new()),
        }
    } else if untr >= away && untr > 0 {
        (String::from_str("Untracked"), String::from_str("#9aa0aa"))
    } else if away > 0 {
        (String::from_str("Away"), String::from_str("#c3c7cf"))
    } else {
        (String::new(), String::new())
    }
}

/// One chart column with its dominant label.
pub fn make_bar(label: String, focus: i64, untr: i64, away: i64, top_cat: Option<(String, String, i64)>) -> (out: Bar)
    ensures
        out.label@ == label@,
        out.focus_min == focus && out.untracked_min == untr && out.away_min == away,
        (out.top@, out.top_color@) == top_spec(cat_view(top_cat), untr as int, away as int),
{
    let (top, top_color) = pick_top(top_cat, untr, away);
    Bar { label, focus_min: focus, untracked_min: untr, away_min: away, top, top_color }
}

/// The label of a day's column: its short weekday on the week chart, its day
/// of the month on the month chart.
pub fn day_bar_label(week: bool, weekday: i64, date: &str) -> (out: String)
    ensures
        out@ == if week { weekday_name(weekday as int) } else { strip_zeros(after_last(date@, '-')) },
{
    if week {
        String::from_str(weekday_short(weekday))
    } else {
        month_day_label(date)
    }
}


/// Minutes of hour `h` from `(hour, minutes)` rows: the last row for that hour
/// wins, negative sums count as zero, hours outside 0..=23 are ignored.
pub open spec fn bucket(rows: Seq<(i64, i64)>, h: int) -> int
    decreases rows.len(),
{
    if rows.len() == 0 {
        0
    } else if rows.last().0 == h {
        max0(rows.last().1 as int)
    } else {
        bucket(rows.drop_last(), h)
    }
}

/// Per-hour minutes (24 buckets) from `(hour, minutes)` rows.
pub fn hour_buckets(rows: &Vec<(i64, i64)>) -> (out: Vec<i64>)
    ensures
        out@.len() == 24,
        forall|h: int| 0 <= h < 24 ==> #[trigger] out@[h] == bucket(rows@, h),
{
    let mut hours: Vec<i64> = Vec::new();
    let mut h: usize = 0;
    while h < 24
        invariant
            h <= 24,
            hours@.len() == h,
            forall|k: int| 0 <= k < h ==> #[trigger] hours@[k] == 0,
        decreases 24 - h,
    {
        hours.push(0);
        h = h + 1;
    }
    let mut i: usize = 0;
    while i < rows.len()
        invariant
            i <= rows@.len(),
            hours@.len() == 24,
            forall|k: int| 0 <= k < 24 ==> #[trigger] hours@[k] == bucket(rows@.take(i as int), k),
        decreases rows@.len() - i,
    {
        let (hr, mins) = rows[i];
        if 0 <= hr && hr < 24 {
            hours.set(hr as usize, if mins > 0 { mins } else { 0 });
        }
        proof {
            let t = rows@.take(i + 1);
            assert(t.drop_last() =~= rows@.take(i as int));
            assert(t.last() == rows@[i as int]);
        }
        i = i + 1;
    }
    proof {
        assert(rows@.take(rows@.len() as int) =~= rows@);
    }
    hours
}

/// The leading category of hour `h` from `(hour, name, color, minutes)` rows:
/// the first row with the largest positive minutes for that hour.
pub open spec fn top_entry(rows: Seq<(i64, String, String, i64)>, h: int) -> Option<(i64, String, String, i64)>
    decreases rows.len(),
{
    if rows.len() == 0 {
        None
    } else {
        let prev = top_entry(rows.drop_last(), h);
        let r = rows.last();
        let prev_mins = match prev {
            Some(p) => p.3 as int,
            None => 0,
        };
        if r.0 == h && r.3 > prev_mins {
            Some(r)
        } else {
            prev
        }
    }
}

pub open spec fn entry_cat(e: Option<(i64, String, String, i64)>) -> Option<(String, String, i64)> {
    match e {
        Some(r) => Some((r.1, r.2, r.3)),
        None => None,
    }
}

proof fn lemma_top_entry_positive(rows: Seq<(i64, String, String, i64)>, h: int)
    ensures
        top_entry(rows, h) matches Some(r) ==> r.3 > 0 && r.0 == h,
    decreases rows.len(),
{
    if rows.len() > 0 {
        lemma_top_entry_positive(rows.drop_last(), h);
    }
}

/// The leading category of every hour (24 entries).
pub fn top_by_hour(rows: &Vec<(i64, String, String, i64)>) -> (out: Vec<Option<(String, String, i64)>>)
    ensures
        out@.len() == 24,
        forall|h: int| 0 <= h < 24 ==> #[trigger] out@[h] == entry_cat(top_entry(rows@, h)),
{
    let mut out: Vec<Option<(String, String, i64)>> = Vec::new();
    let mut h: usize = 0;
    while h < 24
        invariant
            h <= 24,
            out@.len() == h,
            forall|k: int| 0 <= k < h ==> #[trigger] out@[k] == entry_cat(top_entry(rows@, k)),
        decreases 24 - h,
    {
        let mut best: Option<(String, String, i64)> = None;
        let mut i: usize = 0;
        while i < rows.len()
            invariant
                i <= rows@.len(),
                h < 24,
                best == entry_cat(top_entry(rows@.take(i as int), h as int)),
            decreases rows@.len() - i,
        {
            let r = &rows[i];
            let best_mins = match &best {
                Some(b) => b.2,
                None => 0,
            };
            proof {
                let t = rows@.take(i + 1);
                assert(t.drop_last() =~= rows@.take(i as int));
                assert(t.last() == rows@[i as int]);
            }
            if r.0 == h as i64 && r.3 > best_mins {
                best = Some((r.1.clone(), r.2.clone(), r.3));
            }
            i = i + 1;
        }
        proof {
            assert(rows@.take(rows@.len() as int) =~= rows@);
        }
        out.push(best);
        h = h + 1;
    }
    out
}

/// The last hour shown on the day chart: the hour bucket holding the stop
/// time (the whole day when none is set), extended to the last hour with any
/// activity.
pub open spec fn last_hour_spec(stop: Option<Seq<char>>, active_last: int) -> int {
    let stop_last = match stop {
        Some(s) => match hhmm_spec(s) {
            Some(m) => clamp((m + 59) / 60 - 1, 0, 23),
            None => 23,
        },
        None => 23,
    };
    clamp(if stop_last >= active_last { stop_last } else { active_last }, 0, 23)
}

/// The last hour in which any focus, untracked or away minutes fell (0 when none).
pub open spec fn last_active_hour(f: Seq<i64>, u: Seq<i64>, a: Seq<i64>) -> int
    decreases f.len(),
{
    if f.len() == 0 {
        0
    } else if f.last() + u[f.len() - 1] + a[f.len() - 1] > 0 {
        f.len() - 1
    } else {
        last_active_hour(f.drop_last(), u, a)
    }
}

/// Hourly bars of a day: 12am up to the stop-time hour (or later activity),
/// each with its dominant label.
pub fn day_bars(
    fh: &Vec<i64>,
    uh: &Vec<i64>,
    ah: &Vec<i64>,
    tops: &Vec<Option<(String, String, i64)>>,
    stop: Option<&str>,
) -> (out: Vec<Bar>)
    requires
        fh@.len() == 24 && uh@.len() == 24 && ah@.len() == 24 && tops@.len() == 24,
    ensures
        out@.len() == last_hour_spec(
            match stop { Some(s) => Some(s@), None => None },
            last_active_hour(fh@, uh@, ah@),
        ) + 1,
        forall|h: int| 0 <= h < out@.len() ==> {
            let b = #[trigger] out@[h];
            &&& b.label@ == decimal(h)
            &&& b.focus_min == fh@[h] && b.untracked_min == uh@[h] && b.away_min == ah@[h]
            &&& (b.top@, b.top_color@) == top_spec(cat_view(tops@[h]), uh@[h] as int, ah@[h] as int)
        },
{
    let stop_last: i64 = match stop {
        Some(s) => match parse_hhmm_min(s) {
            Some(m) => clamp_i64((m + 59) / 60 - 1, 0, 23),
            None => 23,
        },
        None => 23,
    };
    let mut last_active: i64 = 0;
    let mut k: usize = 0;
    while k < 24
        invariant
            k <= 24,
            fh@.len() == 24 && uh@.len() == 24 && ah@.len() == 24,
            last_active == last_active_hour(fh@.take(k as int), uh@, ah@),
            0 <= last_active < 24,
        decreases 24 - k,
    {
        proof {
            let t = fh@.take(k + 1);
            assert(t.drop_last() =~= fh@.take(k as int));
        }
        if (fh[k] as i128) + (uh[k] as i128) + (ah[k] as i128) > 0 {
            last_active = k as i64;
        }
        k = k + 1;
    }
    proof {
        assert(fh@.take(24) =~= fh@);
    }
    let last = clamp_i64(if stop_last >= last_active { stop_last } else { last_active }, 0, 23);
    let mut bars: Vec<Bar> = Vec::new();
    let mut h: usize = 0;
    while h <= last as usize
        invariant
            0 <= last <= 23,
            h <= last + 1,
            bars@.len() == h,
            fh@.len() == 24 && uh@.len() == 24 && ah@.len() == 24 && tops@.len() == 24,
            forall|j: int| 0 <= j < h ==> {
                let b = #[trigger] bars@[j];
                &&& b.label@ == decimal(j)
                &&& b.focus_min == fh@[j] && b.untracked_min == uh@[j] && b.away_min == ah@[j]
                &&& (b.top@, b.top_color@) == top_spec(cat_view(tops@[j]), uh@[j] as int, ah@[j] as int)
            },
        decreases last + 1 - h,
    {
        let top = match &tops[h] {
            Some(t) => Some((t.0.clone(), t.1.clone(), t.2)),
            None => None,
        };
        bars.push(make_bar(i64_string(h as i64), fh[h], uh[h], ah[h], top));
        h = h + 1;
    }
    bars
}


/// A session placed on the day timeline: its start minute, and its end from
/// the duration so an overnight span stops at midnight (1440).
pub fn timeline_span(start_min: i64, dur: i64, kind: String, label: String, color: String) -> (out: TimelineSpan)
    requires
        start_min + dur <= i64::MAX,
    ensures
        out.start_min == start_min,
        out.end_min == if start_min + max0(dur as int) <= 1440 { start_min + max0(dur as int) } else { 1440 },
        out.kind == kind && out.label == label && out.color == color,
{
    let d = if dur > 0 { dur } else { 0 };
    let e = start_min + d;
    TimelineSpan { start_min, end_min: if e <= 1440 { e } else { 1440 }, kind, label, color }
}

/// Two consecutive timeline blocks merge when they are the same kind and color
/// and at most two minutes apart.
pub open spec fn joins(prev: TimelineSpan, s: TimelineSpan) -> bool {
    prev.kind@ == s.kind@ && prev.color@ == s.color@ && s.start_min - prev.end_min <= 2
}

/// Left-to-right merge of sorted timeline blocks.
pub open spec fn merge_spans(s: Seq<TimelineSpan>) -> Seq<TimelineSpan>
    decreases s.len(),
{
    if s.len() == 0 {
        Seq::empty()
    } else {
        let acc = merge_spans(s.drop_last());
        let x = s.last();
        if acc.len() > 0 && joins(acc.last(), x) {
            let p = acc.last();
            acc.update(
                acc.len() - 1,
                TimelineSpan { end_min: if p.end_min >= x.end_min { p.end_min } else { x.end_min }, ..p },
            )
        } else {
            acc.push(x)
        }
    }
}

/// The spans are in order of their start.
pub open spec fn starts_sorted(s: Seq<TimelineSpan>) -> bool {
    forall|i: int, j: int| #![trigger s[i], s[j]] 0 <= i < j < s.len() ==> s[i].start_min <= s[j].start_min
}

/// `owner` places every span `s[i]` in a block `m[owner[i]]` of its own kind
/// and color that covers it.
pub open spec fn absorbs(s: Seq<TimelineSpan>, m: Seq<TimelineSpan>, owner: Seq<int>) -> bool {
    &&& owner.len() == s.len()
    &&& forall|i: int|
        #![trigger owner[i]]
        0 <= i < s.len() ==> {
            let k = owner[i];
            &&& 0 <= k < m.len()
            &&& m[k].kind@ == s[i].kind@
            &&& m[k].color@ == s[i].color@
            &&& m[k].start_min <= s[i].start_min
            &&& s[i].end_min <= m[k].end_min
        }
}

/// No block starts after the last span does.
pub open spec fn blocks_start_by(s: Seq<TimelineSpan>, m: Seq<TimelineSpan>) -> bool {
    s.len() > 0 ==> forall|k: int| 0 <= k < m.len() ==> #[trigger] m[k].start_min <= s.last().start_min
}

/// Merging the day's spans (in order of start) never mixes kinds or colors:
/// every span lands in a block of its own kind and color that covers it. So two
/// spans of different colors are never shown as one block.
pub proof fn law_merge_keeps_kind_and_color(s: Seq<TimelineSpan>)
    requires
        starts_sorted(s),
    ensures
        exists|owner: Seq<int>| absorbs(s, merge_spans(s), owner),
        blocks_start_by(s, merge_spans(s)),
    decreases s.len(),
{
    if s.len() == 0 {
        assert(absorbs(s, merge_spans(s), Seq::<int>::empty()));
    } else {
        let s0 = s.drop_last();
        assert(starts_sorted(s0)) by {
            assert forall|i: int, j: int| #![trigger s0[i], s0[j]] 0 <= i < j < s0.len() implies s0[i].start_min
                <= s0[j].start_min by {
                assert(s0[i] == s[i] && s0[j] == s[j]);
            }
        }
        law_merge_keeps_kind_and_color(s0);
        let acc = merge_spans(s0);
        let o0 = choose|owner: Seq<int>| absorbs(s0, acc, owner);
        let x = s.last();
        let n = s.len() - 1;
        let m = merge_spans(s);
        if n > 0 {
            assert(s0.last() == s[n - 1]);
            assert(s[n - 1].start_min <= s[n].start_min);
        }
        if acc.len() > 0 && joins(acc.last(), x) {
            let last = acc.len() - 1;
            let owner = o0.push(last);
            assert forall|i: int| #![trigger owner[i]] 0 <= i < s.len() implies {
                let k = owner[i];
                &&& 0 <= k < m.len()
                &&& m[k].kind@ == s[i].kind@
                &&& m[k].color@ == s[i].color@
                &&& m[k].start_min <= s[i].start_min
                &&& s[i].end_min <= m[k].end_min
            } by {
                if i < n {
                    assert(owner[i] == o0[i]);
                    assert(s0[i] == s[i]);
                } else {
                    assert(acc[last].start_min <= s0.last().start_min);
                }
            }
            assert(absorbs(s, m, owner));
            assert forall|k: int| 0 <= k < m.len() implies #[trigger] m[k].start_min <= s.last().start_min by {
                assert(acc[k].start_min <= s0.last().start_min);
            }
        } else {
            let owner = o0.push(acc.len() as int);
            assert forall|i: int| #![trigger owner[i]] 0 <= i < s.len() implies {
                let k = owner[i];
                &&& 0 <= k < m.len()
                &&& m[k].kind@ == s[i].kind@
                &&& m[k].color@ == s[i].color@
                &&& m[k].start_min <= s[i].start_min
                &&& s[i].end_min <= m[k].end_min
            } by {
                if i < n {
                    assert(owner[i] == o0[i]);
                    assert(s0[i] == s[i]);
                }
            }
            assert(absorbs(s, m, owner));
            assert forall|k: int| 0 <= k < m.len() implies #[trigger] m[k].start_min <= s.last().start_min by {
                if k < acc.len() {
                    assert(m[k] == acc[k]);
                    assert(acc[k].start_min <= s0.last().start_min);
                }
            }
        }
    }
}

/// The day timeline's merge works on the raw spans sorted by start, so the
/// law above applies to it: in the stable sort that `build_timeline` merges,
/// every span lands in a block of its own kind and color.
pub proof fn law_timeline_keeps_kind_and_color(
    raw: Seq<TimelineSpan>,
    sorted: Seq<TimelineSpan>,
    keys: Seq<i64>,
)
    requires
        is_stable_sort(raw, start_keys(raw), sorted, keys, false),
    ensures
        exists|owner: Seq<int>| absorbs(sorted, merge_spans(sorted), owner),
{
    let idx = choose|idx: Seq<int>| stable_arrangement(raw, start_keys(raw), sorted, keys, false, idx);
    assert forall|i: int, j: int| #![trigger sorted[i], sorted[j]] 0 <= i < j < sorted.len() implies sorted[i].start_min
        <= sorted[j].start_min by {
        assert(keys[i] == start_keys(raw)[idx[i]]);
        assert(keys[j] == start_keys(raw)[idx[j]]);
        assert(key_le(keys[i], keys[j], false));
    }
    law_merge_keeps_kind_and_color(sorted);
}

/// The blocks that last at least a minute.
pub open spec fn keep_visible(s: Seq<TimelineSpan>) -> Seq<TimelineSpan>
    decreases s.len(),
{
    if s.len() == 0 {
        Seq::empty()
    } else if s.last().end_min - s.last().start_min >= 1 {
        keep_visible(s.drop_last()).push(s.last())
    } else {
        keep_visible(s.drop_last())
    }
}

pub open spec fn start_keys(s: Seq<TimelineSpan>) -> Seq<i64> {
    Seq::new(s.len(), |i: int| s[i].start_min)
}

/// The day timeline: the raw sessions ordered by start (stably), neighbouring
/// blocks of the same kind and color at most two minutes apart merged, and
/// blocks shorter than a minute dropped.
pub fn build_timeline(raw: Vec<TimelineSpan>) -> (out: Vec<TimelineSpan>)
    ensures
        exists|sorted: Seq<TimelineSpan>, keys: Seq<i64>|
            #![trigger is_stable_sort(raw@, start_keys(raw@), sorted, keys, false)]
            is_stable_sort(raw@, start_keys(raw@), sorted, keys, false)
            && out@ == keep_visible(merge_spans(sorted)),
{
    let ghost raw_view = raw@;
    let mut keys: Vec<i64> = Vec::new();
    let mut i: usize = 0;
    while i < raw.len()
        invariant
            i <= raw@.len(),
            keys@.len() == i,
            forall|k: int| 0 <= k < i ==> #[trigger] keys@[k] == raw@[k].start_min,
        decreases raw@.len() - i,
    {
        keys.push(raw[i].start_min);
        i = i + 1;
    }
    proof {
        assert(keys@ =~= start_keys(raw@));
    }
    let (sorted, skeys) = stable_sort_by_key(raw, keys, false);
    let ghost sv = sorted@;
    let mut merged: Vec<TimelineSpan> = Vec::new();
    let mut sorted = sorted;
    let mut j: usize = 0;
    let n = sorted.len();
    while sorted.len() > 0
        invariant
            sorted@ == sv.skip(j as int),
            j + sorted@.len() == sv.len(),
            n == sv.len(),
            merged@ == merge_spans(sv.take(j as int)),
        decreases sorted@.len(),
    {
        let ghost before_sorted = sorted@;
        let x = sorted.remove(0);
        proof {
            assert(x == sv[j as int]);
            assert(sorted@ =~= sv.skip(j + 1));
            let t = sv.take(j + 1);
            assert(t.drop_last() =~= sv.take(j as int));
            assert(t.last() == x);
        }
        let ml = merged.len();
        if ml > 0 && same_block(&merged[ml - 1], &x) {
            let p = merged.pop().unwrap();
            let e = if p.end_min >= x.end_min { p.end_min } else { x.end_min };
            let ghost pv = p;
            merged.push(TimelineSpan { end_min: e, ..p });
            proof {
                assert(merged@ =~= merge_spans(sv.take(j as int)).update(ml - 1, TimelineSpan { end_min: e, ..pv }));
            }
        } else {
            merged.push(x);
        }
        j = j + 1;
    }
    proof {
        assert(sv.take(j as int) =~= sv);
    }
    let mut out: Vec<TimelineSpan> = Vec::new();
    let ghost mv = merged@;
    let m = merged.len();
    let mut k: usize = 0;
    while merged.len() > 0
        invariant
            m == mv.len(),
            merged@ == mv.skip(k as int),
            k + merged@.len() == mv.len(),
            out@ == keep_visible(mv.take(k as int)),
        decreases merged@.len(),
    {
        let x = merged.remove(0);
        proof {
            assert(x == mv[k as int]);
            assert(merged@ =~= mv.skip(k + 1));
            let t = mv.take(k + 1);
            assert(t.drop_last() =~= mv.take(k as int));
            assert(t.last() == x);
        }
        if (x.end_min as i128) - (x.start_min as i128) >= 1 {
            out.push(x);
        }
        k = k + 1;
    }
    proof {
        assert(mv.take(k as int) =~= mv);
    }
    out
}

fn same_block(prev: &TimelineSpan, s: &TimelineSpan) -> (out: bool)
    ensures
        out == joins(*prev, *s),
{
    prev.kind == s.kind && prev.color == s.color && (s.start_min as i128) - (prev.end_min as i128) <= 2
}

/// The last minute of a timeline (0 when empty).
pub open spec fn last_end(t: Seq<TimelineSpan>) -> int
    decreases t.len(),
{
    if t.len() == 0 {
        0
    } else {
        let r = last_end(t.drop_last());
        if t.last().end_min as int > r { t.last().end_min as int } else { r }
    }
}

/// The right edge of the day timeline: the stop time (6pm by default),
/// extended to cover later activity, between 1am and midnight.
pub fn day_end_min(stop: Option<&str>, timeline: &Vec<TimelineSpan>) -> (out: i64)
    ensures
        out == clamp(
            ({
                let stop_min = match stop {
                    Some(s) => match hhmm_spec(s@) {
                        Some(m) => m,
                        None => 1080,
                    },
                    None => 1080,
                };
                if stop_min >= last_end(timeline@) { stop_min } else { last_end(timeline@) }
            }),
            60,
            1440,
        ),
{
    let stop_min: i64 = match stop {
        Some(s) => match parse_hhmm_min(s) {
            Some(m) => m,
            None => 1080,
        },
        None => 1080,
    };
    let mut last: i64 = 0;
    let mut i: usize = 0;
    while i < timeline.len()
        invariant
            i <= timeline@.len(),
            last == last_end(timeline@.take(i as int)),
        decreases timeline@.len() - i,
    {
        proof {
            let t = timeline@.take(i + 1);
            assert(t.drop_last() =~= timeline@.take(i as int));
        }
        if timeline[i].end_min > last {
            last = timeline[i].end_min;
        }
        i = i + 1;
    }
    proof {
        assert(timeline@.take(timeline@.len() as int) =~= timeline@);
    }
    clamp_i64(if stop_min >= last { stop_min } else { last }, 60, 1440)
}


pub open spec fn cat_minutes(s: Seq<CategoryStat>) -> Seq<i64> {
    Seq::new(s.len(), |i: int| s[i].minutes)
}

pub open spec fn app_minutes(s: Seq<AppStat>) -> Seq<i64> {
    Seq::new(s.len(), |i: int| s[i].minutes)
}

pub open spec fn tracked_keys(s: Seq<PlannedActual>) -> Seq<i64> {
    Seq::new(s.len(), |i: int| s[i].tracked_min)
}

pub open spec fn auto_keys(s: Seq<PauseStat>) -> Seq<i64> {
    Seq::new(s.len(), |i: int| if s[i].auto { 1 } else { 0 })
}

/// A category's row of the breakdown, with the defaults for tasks without a
/// category.
pub fn category_stat(name: Option<String>, color: Option<String>, minutes: i64) -> (out: CategoryStat)
    ensures
        out.name@ == match name { Some(n) => n@, None => "Uncategorized"@ },
        out.color@ == match color { Some(c) => c@, None => "#9aa0aa"@ },
        out.minutes == minutes,
{
    CategoryStat {
        name: match name {
            Some(n) => n,
            None => String::from_str("Uncategorized"),
        },
        color: match color {
            Some(c) => c,
            None => String::from_str("#9aa0aa"),
        },
        minutes,
    }
}

/// The "where your time went" breakdown: the tracked categories (already by
/// time, largest first), then Untracked and Away when there was any, the
/// whole list re-ordered by minutes (stably, largest first) once either joined.
pub fn category_breakdown(by_task: Vec<CategoryStat>, untracked_min: i64, away_min: i64) -> (out: Vec<CategoryStat>)
    ensures
        untracked_min <= 0 && away_min <= 0 ==> out@ == by_task@,
        untracked_min > 0 || away_min > 0 ==> exists|all: Seq<CategoryStat>, keys: Seq<i64>|
            #![trigger is_stable_sort(all, cat_minutes(all), out@, keys, true)]
            is_stable_sort(all, cat_minutes(all), out@, keys, true)
            && all.len() == by_task@.len() + (if untracked_min > 0 { 1int } else { 0 }) + (if away_min > 0 { 1int } else { 0 })
            && all.subrange(0, by_task@.len() as int) == by_task@
            && (untracked_min > 0 ==> all[by_task@.len() as int].name@ == "Untracked"@
                && all[by_task@.len() as int].color@ == "#9aa0aa"@
                && all[by_task@.len() as int].minutes == untracked_min)
            && (away_min > 0 ==> all[all.len() - 1].name@ == "Away"@ && all[all.len() - 1].color@ == "#c3c7cf"@
                && all[all.len() - 1].minutes == away_min),
{
    let mut all = by_task;
    let ghost t = all@;
    if untracked_min > 0 {
        all.push(CategoryStat {
            name: String::from_str("Untracked"),
            color: String::from_str("#9aa0aa"),
            minutes: untracked_min,
        });
    }
    if away_min > 0 {
        all.push(CategoryStat {
            name: String::from_str("Away"),
            color: String::from_str("#c3c7cf"),
            minutes: away_min,
        });
    }
    if untracked_min <= 0 && away_min <= 0 {
        return all;
    }
    let ghost av = all@;
    proof {
        assert(av.subrange(0, t.len() as int) =~= t);
    }
    let mut keys: Vec<i64> = Vec::new();
    let mut i: usize = 0;
    while i < all.len()
        invariant
            i <= all@.len(),
            keys@.len() == i,
            forall|k: int| 0 <= k < i ==> #[trigger] keys@[k] == all@[k].minutes,
        decreases all@.len() - i,
    {
        keys.push(all[i].minutes);
        i = i + 1;
    }
    proof {
        assert(keys@ =~= cat_minutes(all@));
    }
    let (sorted, _k) = stable_sort_by_key(all, keys, true);
    sorted
}


fn app_keys_of(apps: &Vec<AppStat>) -> (keys: Vec<i64>)
    ensures
        keys@ == app_minutes(apps@),
{
    let mut keys: Vec<i64> = Vec::new();
    let mut i: usize = 0;
    while i < apps.len()
        invariant
            i <= apps@.len(),
            keys@.len() == i,
            forall|k: int| 0 <= k < i ==> #[trigger] keys@[k] == apps@[k].minutes,
        decreases apps@.len() - i,
    {
        keys.push(apps[i].minutes);
        i = i + 1;
    }
    proof {
        assert(keys@ =~= app_minutes(apps@));
    }
    keys
}

/// The six applications a task's time went to most, by time (stably,
/// largest first).
pub fn top_apps(apps: Vec<AppStat>) -> (out: Vec<AppStat>)
    ensures
        exists|sorted: Seq<AppStat>, keys: Seq<i64>|
            #![trigger is_stable_sort(apps@, app_minutes(apps@), sorted, keys, true)]
            is_stable_sort(apps@, app_minutes(apps@), sorted, keys, true)
            && out@ == if sorted.len() <= 6 { sorted } else { sorted.subrange(0, 6) },
{
    let keys = app_keys_of(&apps);
    let (mut sorted, _k) = stable_sort_by_key(apps, keys, true);
    sorted.truncate(6);
    sorted
}

fn opt_eq(a: Option<i64>, b: Option<i64>) -> (out: bool)
    ensures
        out == (a == b),
{
    match (a, b) {
        (Some(x), Some(y)) => x == y,
        (None, None) => true,
        _ => false,
    }
}

/// The rows of one task (`None` = the untracked bucket), in row order.
pub open spec fn apps_filter(rows: Seq<(Option<i64>, AppStat)>, task: Option<i64>) -> Seq<AppStat>
    decreases rows.len(),
{
    if rows.len() == 0 {
        Seq::empty()
    } else if rows.last().0 == task {
        apps_filter(rows.drop_last(), task).push(rows.last().1)
    } else {
        apps_filter(rows.drop_last(), task)
    }
}

/// The applications used while working on one task (`None` = the untracked
/// bucket), from `(task, app)` rows, in row order.
pub fn apps_of(rows: &Vec<(Option<i64>, AppStat)>, task: Option<i64>) -> (out: Vec<AppStat>)
    ensures
        out@ == apps_filter(rows@, task),
{
    let mut out: Vec<AppStat> = Vec::new();
    let mut i: usize = 0;
    while i < rows.len()
        invariant
            i <= rows@.len(),
            out@ == apps_filter(rows@.take(i as int), task),
        decreases rows@.len() - i,
    {
        proof {
            let t = rows@.take(i + 1);
            assert(t.drop_last() =~= rows@.take(i as int));
            assert(t.last() == rows@[i as int]);
        }
        if opt_eq(rows[i].0, task) {
            out.push(AppStat { app: rows[i].1.app.clone(), minutes: rows[i].1.minutes });
        }
        i = i + 1;
    }
    proof {
        assert(rows@.take(rows@.len() as int) =~= rows@);
    }
    out
}

pub open spec fn auto_reason(r: Seq<char>) -> bool {
    ||| r == "auto-idle"@
    ||| r == "auto-suspend"@
    ||| r == "day-rollover"@
    ||| r == "reached-estimate"@
    ||| r == "rescheduled"@
    ||| r == "deleted"@
    ||| r == "break-start"@
    ||| r == "break-end"@
    ||| r == "capped-suspend"@
    ||| r == "capped-runaway"@
}

/// A reason the app sets itself (anything else is the user's own note).
pub fn is_auto_reason(reason: &str) -> (out: bool)
    ensures
        out == auto_reason(reason@),
{
    str_eq(reason, "auto-idle") || str_eq(reason, "auto-suspend") || str_eq(reason, "day-rollover")
        || str_eq(reason, "reached-estimate") || str_eq(reason, "rescheduled") || str_eq(reason, "deleted")
        || str_eq(reason, "break-start") || str_eq(reason, "break-end") || str_eq(reason, "capped-suspend")
        || str_eq(reason, "capped-runaway")
}

/// The pauses of one task, classified, in row order.
pub open spec fn pauses_filter(rows: Seq<(Option<i64>, String, i64)>, task: i64) -> Seq<PauseStat>
    decreases rows.len(),
{
    if rows.len() == 0 {
        Seq::empty()
    } else if rows.last().0 == Some(task) {
        pauses_filter(rows.drop_last(), task).push(
            PauseStat { reason: rows.last().1, count: rows.last().2, auto: auto_reason(rows.last().1@) },
        )
    } else {
        pauses_filter(rows.drop_last(), task)
    }
}

/// The pauses of one task from `(task, reason, count)` rows (already most
/// frequent first): each reason classified as automatic or the user's own,
/// the user's own first, each group keeping its order.
pub fn pauses_of(rows: &Vec<(Option<i64>, String, i64)>, task: i64) -> (out: Vec<PauseStat>)
    ensures
        exists|keys: Seq<i64>|
            #![trigger is_stable_sort(pauses_filter(rows@, task), auto_keys(pauses_filter(rows@, task)), out@, keys, false)]
            is_stable_sort(pauses_filter(rows@, task), auto_keys(pauses_filter(rows@, task)), out@, keys, false),
{
    let mut mine: Vec<PauseStat> = Vec::new();
    let mut keys: Vec<i64> = Vec::new();
    let mut i: usize = 0;
    while i < rows.len()
        invariant
            i <= rows@.len(),
            keys@ == auto_keys(mine@),
            mine@ == pauses_filter(rows@.take(i as int), task),
        decreases rows@.len() - i,
    {
        proof {
            let t = rows@.take(i + 1);
            assert(t.drop_last() =~= rows@.take(i as int));
            assert(t.last() == rows@[i as int]);
        }
        if opt_eq(rows[i].0, Some(task)) {
            let auto = is_auto_reason(rows[i].1.as_str());
            mine.push(PauseStat { reason: rows[i].1.clone(), count: rows[i].2, auto });
            keys.push(if auto { 1 } else { 0 });
            proof {
                assert(keys@ =~= auto_keys(mine@));
            }
        }
        i = i + 1;
    }
    proof {
        assert(rows@.take(rows@.len() as int) =~= rows@);
    }
    let (sorted, _k) = stable_sort_by_key(mine, keys, false);
    sorted
}

/// A task's row of the planned-vs-actual list, with its six top applications.
pub fn planned_row(
    title: String,
    color: String,
    category: String,
    body_md: String,
    estimate_min: i64,
    done: bool,
    spent_min: i64,
    apps: Vec<AppStat>,
    pauses: Vec<PauseStat>,
) -> (out: PlannedActual)
    ensures
        out.title == title && out.color == color && out.category == category && out.body_md == body_md,
        out.estimate_min == estimate_min && out.tracked_min == spent_min && out.done == done,
        !out.untracked,
        out.pauses == pauses,
        exists|sorted: Seq<AppStat>, keys: Seq<i64>|
            #![trigger is_stable_sort(apps@, app_minutes(apps@), sorted, keys, true)]
            is_stable_sort(apps@, app_minutes(apps@), sorted, keys, true)
            && out.apps@ == if sorted.len() <= 6 { sorted } else { sorted.subrange(0, 6) },
{
    PlannedActual {
        title,
        color,
        category,
        body_md,
        estimate_min,
        tracked_min: spent_min,
        done,
        untracked: false,
        apps: top_apps(apps),
        pauses,
    }
}

/// The planned-vs-actual list: the worked tasks (already by time), plus the
/// synthetic Untracked row when there was untracked time, the list then
/// re-ordered by time (stably, largest first).
pub fn with_untracked_row(rows: Vec<PlannedActual>, untracked_min: i64, untracked_apps: Vec<AppStat>) -> (out: Vec<PlannedActual>)
    ensures
        untracked_min <= 0 ==> out@ == rows@,
        untracked_min > 0 ==> exists|all: Seq<PlannedActual>, keys: Seq<i64>|
            #![trigger is_stable_sort(all, tracked_keys(all), out@, keys, true)]
            is_stable_sort(all, tracked_keys(all), out@, keys, true)
            && all.len() == rows@.len() + 1
            && all.drop_last() == rows@
            && all.last().title@ == "Untracked"@ && all.last().color@ == "#9aa0aa"@
            && all.last().category@.len() == 0 && all.last().body_md@.len() == 0
            && all.last().estimate_min == 0 && all.last().tracked_min == untracked_min
            && !all.last().done && all.last().untracked && all.last().pauses@.len() == 0
            && exists|sorted: Seq<AppStat>, akeys: Seq<i64>|
                #![trigger is_stable_sort(untracked_apps@, app_minutes(untracked_apps@), sorted, akeys, true)]
                is_stable_sort(untracked_apps@, app_minutes(untracked_apps@), sorted, akeys, true)
                && all.last().apps@ == if sorted.len() <= 6 { sorted } else { sorted.subrange(0, 6) },
{
    if untracked_min <= 0 {
        return rows;
    }
    let mut all = rows;
    let ghost rv = all@;
    all.push(PlannedActual {
        title: String::from_str("Untracked"),
        color: String::from_str("#9aa0aa"),
        category: String::new(),
        body_md: String::new(),
        estimate_min: 0,
        tracked_min: untracked_min,
        done: false,
        untracked: true,
        apps: top_apps(untracked_apps),
        pauses: Vec::new(),
    });
    proof {
        assert(all@.drop_last() =~= rv);
    }
    let mut keys: Vec<i64> = Vec::new();
    let mut i: usize = 0;
    while i < all.len()
        invariant
            i <= all@.len(),
            keys@.len() == i,
            forall|k: int| 0 <= k < i ==> #[trigger] keys@[k] == all@[k].tracked_min,
        decreases all@.len() - i,
    {
        keys.push(all[i].tracked_min);
        i = i + 1;
    }
    proof {
        assert(keys@ =~= tracked_keys(all@));
    }
    let (sorted, _k) = stable_sort_by_key(all, keys, true);
    sorted
}

} // verus!
