use achieve::idle::{idle_flag_path, shell_quote, swayidle_args};
use achieve::intervals::{
    attribute_spans, away_rows, away_split_step, clip_rows, downtime_span, merge_iv, seal_window_plan,
    split_focus_span, subtract_iv,
};

#[test]
fn merge_joins_overlapping_and_touching() {
    assert_eq!(merge_iv(vec![(5, 8), (1, 3), (2, 4), (8, 9), (10, 10)]), vec![(1, 4), (5, 9)]);
    assert_eq!(merge_iv(vec![]), vec![]);
    let once = merge_iv(vec![(30, 40), (0, 10), (5, 20), (41, 50)]);
    assert_eq!(once, vec![(0, 20), (30, 40), (41, 50)]);
    assert_eq!(merge_iv(once.clone()), once);
}

#[test]
fn subtract_removes_the_holes() {
    assert_eq!(subtract_iv(vec![(0, 10)], &[(2, 4), (6, 8)]), vec![(0, 2), (4, 6), (8, 10)]);
    assert_eq!(subtract_iv(vec![(0, 10)], &[(0, 10)]), vec![]);
    assert_eq!(subtract_iv(vec![(0, 5), (3, 9)], &[]), vec![(0, 9)]);
}

#[test]
fn away_is_the_complement_of_presence() {
    // A day window with work from 100 to 200 and 230 to 400: the 30-second gap
    // is too short to count as away.
    assert_eq!(away_rows(0, 1000, vec![(100, 200), (230, 400)]), vec![(0, 100), (400, 1000)]);
    assert_eq!(away_rows(0, 50, vec![]), vec![]);
    assert_eq!(seal_window_plan(10, 10, vec![]), None);
    assert_eq!(seal_window_plan(0, 120, vec![(0, 30)]), Some(vec![(30, 120)]));
}

#[test]
fn focus_spans_are_split_against_work() {
    let segs = vec![(100, 200, 7), (300, 400, 8)];
    assert_eq!(
        split_focus_span(50, 350, &segs),
        Some(vec![(50, 100, None), (100, 200, Some(7)), (200, 300, None), (300, 350, Some(8))])
    );
    assert_eq!(split_focus_span(210, 290, &segs), None);
    let out = attribute_spans(vec![(100, 200, 7), (150, 150, 9)], &vec![(0, 50), (120, 180)]);
    assert_eq!(out, vec![None, Some(vec![(120, 180, Some(7))])]);
}

#[test]
fn overlapping_segments_credit_the_earlier_one() {
    // Segments overlapping each other: the instants both cover go to the one
    // that starts first; back-to-back segments of one task stay separate rows.
    let segs = vec![(0, 100, 1), (50, 150, 2), (150, 200, 2)];
    assert_eq!(
        split_focus_span(0, 250, &segs),
        Some(vec![(0, 100, Some(1)), (100, 150, Some(2)), (150, 200, Some(2)), (200, 250, None)])
    );
    // A segment wholly inside an earlier one earns nothing.
    let segs = vec![(0, 100, 1), (20, 40, 3)];
    assert_eq!(split_focus_span(10, 60, &segs), Some(vec![(10, 60, Some(1))]));
    // Seal: free runs of a minute or more, each whole.
    assert_eq!(
        seal_window_plan(0, 400, vec![(100, 130), (150, 200), (330, 400)]),
        Some(vec![(0, 100), (200, 330)])
    );
}

#[test]
fn rows_and_downtime() {
    assert_eq!(clip_rows(&vec![(0, 50), (40, 200)], 10, 100), vec![(10, 50), (40, 100)]);
    assert_eq!(downtime_span(1000, 1030), None);
    assert_eq!(downtime_span(1000, 1060), Some((1000, 1060)));
    assert_eq!(downtime_span(0, 5000), None);
    assert_eq!(away_split_step(0, 200, 100), (Some((0, 100)), Some(100)));
    assert_eq!(away_split_step(100, 130, 500), (None, None));
}

#[test]
fn idle_flag_and_swayidle() {
    assert_eq!(idle_flag_path("/data"), "/data/idle.flag");
    assert_eq!(idle_flag_path("/data/"), "/data/idle.flag");
    assert_eq!(shell_quote("it's"), "'it'\\''s'");
    assert_eq!(
        swayidle_args("/tmp/f", 300),
        vec!["-w", "timeout", "300", "touch '/tmp/f'", "resume", "rm -f '/tmp/f'"]
    );
}
