use clipforge::lane::{
    lane_drag, new_text, nudge, snap, text_nav, text_rows, widen, Guides, LaneGesture, TextGesture, SAFE_MARGIN,
};
use clipforge::text::{TextItem, FRAME_UNITS, TEXT_MIN_WIDTH};
use clipforge::time::Ticks;

fn text(start: i64, secs: i64) -> TextItem {
    TextItem::new("A\nB".to_owned(), Ticks::from_seconds(start), Ticks::from_seconds(secs))
}

#[test]
fn text_rows_stack_overlapping_items() {
    let texts = vec![text(0, 4), text(2, 4), text(4, 2), text(3, 5), text(3, 5)];
    assert_eq!(text_rows(&texts), vec![0, 1, 0, 2, 2]);
    assert!(text_rows(&[]).is_empty());
}

#[test]
fn drag_moves_by_the_pointer_delta_and_snaps_to_centre() {
    let mut m = text(0, 4);
    m.x = 3_000;
    m.y = 7_000;
    assert_eq!(snap(&m, (1_000, 300), &[]), (0, 0, Guides::default()));
    m.x = 4_950;
    m.y = 5_050;
    let (dx, dy, g) = snap(&m, (1_000, 300), &[]);
    assert_eq!((m.x + dx, m.y + dy), (5_000, 5_000));
    assert_eq!(g, Guides { x: Some(5_000), y: Some(5_000) });
}

#[test]
fn snapping_reaches_other_texts_and_the_safe_margin() {
    let mut t = text(0, 4);
    t.x = 1_560;
    t.y = 3_000;
    let (dx, _, g) = snap(&t, (1_000, 300), &[]);
    assert_eq!((t.x + dx, g.x), (1_500, Some(SAFE_MARGIN)));
    t.x = 7_050;
    t.y = 2_940;
    let (dx, dy, g) = snap(&t, (1_000, 300), &[(7_000, 3_000)]);
    assert_eq!((t.x + dx, t.y + dy), (7_000, 3_000));
    assert_eq!(g, Guides { x: Some(7_000), y: Some(3_000) });
    t.y = 9_150;
    let (_, dy, g) = snap(&t, (1_000, 300), &[]);
    assert_eq!((t.y + dy, g.y), (9_200, Some(FRAME_UNITS - SAFE_MARGIN)));
}

#[test]
fn equally_near_candidates_snap_to_the_first() {
    let mut t = text(0, 4);
    t.x = 5_060;
    t.y = 0;
    let (dx, _, g) = snap(&t, (1_000, 300), &[(5_120, 0)]);
    assert_eq!((dx, g.x), (-60, Some(5_000)), "the frame centre is listed first");
}

#[test]
fn keyboard_moves_between_texts_in_time_order() {
    let texts = vec![text(5, 1), text(0, 1), text(2, 1)];
    assert_eq!(text_nav(&texts, None, true), Some(1));
    assert_eq!(text_nav(&texts, None, false), Some(0));
    assert_eq!(text_nav(&texts, Some(1), true), Some(2));
    assert_eq!(text_nav(&texts, Some(2), true), Some(0));
    assert_eq!(text_nav(&texts, Some(0), true), Some(0), "stays at the end");
    assert_eq!(text_nav(&texts, Some(1), false), Some(1), "stays at the start");
    assert_eq!(text_nav(&[], None, true), None);
    assert_eq!(text_nav(&texts, Some(9), true), Some(1), "a stale focus counts as none");
}

#[test]
fn lane_drag_moves_and_trims_with_a_minimum_length() {
    let t = text(2, 4);
    let s = Ticks::second();
    let min = Ticks::from_millis(200);
    let m = lane_drag(&t, LaneGesture::Move, s);
    assert_eq!((m.start, m.duration), (Ticks::from_seconds(3), t.duration));
    let m = lane_drag(&t, LaneGesture::Move, Ticks::from_seconds(-9));
    assert_eq!(m.start, Ticks::zero());
    let a = lane_drag(&t, LaneGesture::Start, s);
    assert_eq!((a.start, a.end()), (Ticks::from_seconds(3), t.end()));
    let a = lane_drag(&t, LaneGesture::Start, Ticks::from_seconds(9));
    assert_eq!(a.duration, min);
    let e = lane_drag(&t, LaneGesture::End, Ticks::zero().minus(s));
    assert_eq!((e.start, e.duration), (t.start, Ticks::from_seconds(3)));
    let e = lane_drag(&t, LaneGesture::End, Ticks::from_seconds(-9));
    assert_eq!(e.duration, min);
}

#[test]
fn new_text_starts_at_the_playhead() {
    let end = Ticks::from_seconds(10);
    assert_eq!(new_text("Hi", Ticks::from_seconds(3), end).start, Ticks::from_seconds(3));
    assert_eq!(new_text("Hi", end, end).start, Ticks::zero());
    assert_eq!(new_text("Hi", Ticks::zero(), end).duration, Ticks::from_seconds(4));
}

#[test]
fn handle_codes_and_arrow_nudges() {
    assert_eq!(TextGesture::from_code(1), TextGesture::Width { left: true });
    assert_eq!(TextGesture::from_code(2), TextGesture::Width { left: false });
    assert_eq!(TextGesture::from_code(3), TextGesture::Scale);
    assert_eq!(TextGesture::from_code(7), TextGesture::Move);
    assert_eq!(LaneGesture::from_code(1), LaneGesture::Start);
    assert_eq!(LaneGesture::from_code(2), LaneGesture::End);
    assert_eq!(LaneGesture::from_code(0), LaneGesture::Move);
    let t = text(0, 1);
    let n = nudge(&t, 10, -20);
    assert_eq!((n.x, n.y), (5_010, 4_980));
    assert_eq!(n.text, t.text);
}

fn units(f: f32) -> i32 {
    (f * FRAME_UNITS as f32).round() as i32
}

#[test]
fn side_handle_changes_width_around_the_centre() {
    let t = text(0, 4); // width 8000, centred
    let r = widen(&t, units(0.8 - 0.9), false);
    assert_eq!((r.width, r.x), (6_000, t.x));
    let l = widen(&t, units(0.05 - 0.1), true);
    assert_eq!(l.width, 9_000);
    let tiny = widen(&t, units(0.0 - 0.9), false);
    assert_eq!(tiny.width, TEXT_MIN_WIDTH);
    let wide = widen(&t, 7_000, false);
    assert_eq!(wide.width, 2 * FRAME_UNITS);
    assert_eq!((wide.x, wide.y, wide.style.size), (t.x, t.y, t.style.size));
}
