use strix::stream::{
    anchor_step, at_hard_edge, clamp_to_end, diff_max_scroll, offset_span, paint_offset, renormalize,
    settle_stream_offset, strip_segments, stream_scroll_limit, walk_step, window_rows,
};

#[test]
fn window_fills_across_files_and_stops_at_a_missing_section() {
    let rows = [Some(10), Some(3), Some(20)];
    assert_eq!(window_rows(&rows, 0, 4, 8), 6 + 2);
    assert_eq!(window_rows(&rows, 0, 4, 30), 6 + 3 + 20);
    assert_eq!(window_rows(&rows, 2, 25, 8), 0);
    let gap = [Some(10), None, Some(20)];
    assert_eq!(window_rows(&gap, 0, 4, 30), 6);
}

#[test]
fn renormalize_keeps_the_top_row() {
    let rows = [Some(10), Some(3), Some(20)];
    // Down: 15 rows into file 0 is 2 rows into file 2.
    assert_eq!(renormalize(&rows, 0, 15), (2, 2));
    // (B, 0) is a resting state, and so is (A, R_A).
    assert_eq!(renormalize(&rows, 1, 0), (1, 0));
    assert_eq!(renormalize(&rows, 0, 10), (0, 10));
    // Up: two rows above file 2 is the second-to-last row of file 1.
    assert_eq!(renormalize(&rows, 2, -2), (1, 1));
    assert_eq!(renormalize(&rows, 2, -5), (0, 8));
    // Past the ends it stops at the first or last file.
    assert_eq!(renormalize(&rows, 0, -4), (0, -4));
    assert_eq!(renormalize(&rows, 0, 99), (2, 86));
}

#[test]
fn clamp_backs_off_by_the_shortfall() {
    let rows = [Some(10), Some(3), Some(20)];
    // 33 rows, viewport 8: the last full top row is 25 (file 2, offset 12).
    assert_eq!(clamp_to_end(&rows, 2, 15, 8), (2, 12));
    assert_eq!(clamp_to_end(&rows, 2, 5, 8), (2, 5));
    // A stream shorter than the viewport floors at the top.
    assert_eq!(clamp_to_end(&[Some(2), Some(3)], 1, 1, 8), (0, 0));
    assert_eq!(clamp_to_end(&rows, 0, -3, 8), (0, 0));
}

#[test]
fn settle_renormalizes_then_clamps() {
    let rows = [Some(10), Some(3), Some(20)];
    assert_eq!(settle_stream_offset(&rows, 0, 15, 8), (2, 2));
    assert_eq!(settle_stream_offset(&rows, 0, 40, 8), (2, 12));
    assert_eq!(settle_stream_offset(&rows, 2, -30, 8), (0, 0));
    assert_eq!(settle_stream_offset(&rows, 1, 2, 8), (1, 2));
    // Settling a settled state changes nothing.
    let (i, o) = settle_stream_offset(&rows, 0, 40, 8);
    assert_eq!(settle_stream_offset(&rows, i, o as i64, 8), (i, o));
    // Walking back across a short file into the one above it.
    assert_eq!(settle_stream_offset(&[Some(10), Some(3)], 1, 3, 5), (0, 8));
}

#[test]
fn scroll_limit_counts_prepared_strip_rows() {
    assert_eq!(stream_scroll_limit(10, &[], 8), 2);
    assert_eq!(stream_scroll_limit(10, &[Some(3), Some(20)], 8), 10 + 3 + 20 - 8);
    assert_eq!(stream_scroll_limit(10, &[None, Some(20)], 8), 2);
    assert_eq!(stream_scroll_limit(3, &[], 8), 0);
    assert_eq!(paint_offset(50, 10, &[Some(3)], 8), 2);
    assert_eq!(paint_offset(4, 10, &[Some(3)], 8), 4);
    assert_eq!(paint_offset(11, 10, &[Some(3), Some(20)], 8), 2);
}

#[test]
fn hard_edges_of_the_anchor() {
    assert_eq!(diff_max_scroll(30, 10), 20);
    assert_eq!(diff_max_scroll(5, 10), 0);
    assert!(at_hard_edge(0, 30, 10, false));
    assert!(!at_hard_edge(0, 30, 10, true));
    assert!(at_hard_edge(25, 30, 10, true));
    assert!(at_hard_edge(3, 5, 10, true) && at_hard_edge(3, 5, 10, false));
}

#[test]
fn walk_spends_the_residual_in_following_files() {
    let rows = [Some(10), Some(0), Some(3), Some(20)];
    // From rows [8, 9) of file 0, four down: row 12 of the stream is row 2 of file 2.
    assert_eq!(walk_step(&rows, 0, 8, 9, true, 4), Some((2, 2)));
    // A multi-row target is crossed whole: from [2, 6) one down lands on row 6.
    assert_eq!(walk_step(&rows, 0, 2, 6, true, 1), Some((0, 6)));
    // Past the end: the last row.
    assert_eq!(walk_step(&rows, 3, 15, 16, true, 30), Some((3, 19)));
    assert_eq!(walk_step(&[Some(4), Some(0)], 0, 2, 3, true, 9), None);
    // Up across the empty file into file 0.
    assert_eq!(walk_step(&rows, 2, 1, 2, false, 3), Some((0, 8)));
    assert_eq!(walk_step(&rows, 2, 1, 2, false, 40), Some((0, 0)));
    assert_eq!(walk_step(&rows, 3, 5, 6, false, 2), Some((3, 3)));
}

#[test]
fn anchor_steps_stay_in_the_anchor() {
    assert_eq!(anchor_step(0, 0, 1, true, 1), None);
    assert_eq!(anchor_step(10, 2, 6, true, 1), Some(6));
    assert_eq!(anchor_step(10, 8, 9, true, 5), Some(9));
    assert_eq!(anchor_step(10, 3, 4, false, 5), Some(0));
    assert_eq!(anchor_step(10, 7, 8, false, 5), Some(2));
}

#[test]
fn offset_spans_count_from_the_anchor() {
    let rows = [Some(10), Some(3), Some(20)];
    assert_eq!(offset_span(&rows, 0, 2, 1, 2), (14, 15));
    assert_eq!(offset_span(&rows, 2, 0, 4, 6), (-9, -7));
    assert_eq!(offset_span(&rows, 1, 1, 0, 1), (0, 1));
}

#[test]
fn strip_segments_fill_the_rest_of_the_window() {
    assert_eq!(strip_segments(3, &[Some(2), Some(20), Some(5)], 8), vec![2, 3]);
    assert_eq!(strip_segments(8, &[Some(2)], 8), Vec::<usize>::new());
    assert_eq!(strip_segments(0, &[Some(2), None, Some(5)], 8), vec![2]);
    assert_eq!(strip_segments(0, &[], 8), Vec::<usize>::new());
}
