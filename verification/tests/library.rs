use clipforge::ids::MediaId;
use clipforge::library::{GridSelection, KindFilter, SortChoice, SortKey, ThumbWindow, ViewState};
use clipforge::catalog::RefKind;

fn ordered(s: &GridSelection, ids: &[MediaId]) -> Vec<MediaId> {
    s.ordered(ids)
}

#[test]
fn grid_selection_semantics() {
    let ids: Vec<MediaId> = (0..6).map(|_| MediaId::new()).collect();
    let mut s = GridSelection::new();
    s.click(&ids, 1, false, false);
    assert_eq!(ordered(&s, &ids), [ids[1]]);
    s.click(&ids, 4, true, false);
    assert_eq!(ordered(&s, &ids), ids[1..=4]);
    s.click(&ids, 0, false, true);
    assert_eq!(ordered(&s, &ids).len(), 5);
    s.click(&ids, 2, false, true);
    assert!(!s.contains(ids[2]));
    s.click(&ids, 5, true, true);
    assert!(s.contains(ids[3]) && s.contains(ids[5]), "shift+toggle adds a range");
    let base = GridSelection { ids: s.ids.clone(), anchor: None };
    s.marquee(&ids, &[0, 1], &base, false);
    assert_eq!(ordered(&s, &ids), ids[0..=1]);
    s.marquee(&ids, &[5], &base, true);
    assert!(s.contains(ids[5]) && s.contains(ids[0]));
    s.retain_existing(&ids[..2]);
    assert_eq!(ordered(&s, &ids), [ids[0], ids[1]]);
    s.click(&ids, 99, false, false);
    s.clear();
    assert!(ordered(&s, &ids).is_empty());
    assert_eq!(s.anchor, None);
}

#[test]
fn shift_click_ranges_from_the_anchor_either_way() {
    let ids: Vec<MediaId> = (0..5).map(|i| MediaId::from_u128(i + 1)).collect();
    let mut s = GridSelection::new();
    s.click(&ids, 3, false, false);
    s.click(&ids, 1, true, false);
    assert_eq!(ordered(&s, &ids), ids[1..=3]);
    assert_eq!(s.anchor, Some(3));
    s.retain_existing(&ids[..2]);
    assert_eq!(s.anchor, None, "an anchor past the end is dropped");
    s.click(&ids, 2, true, false);
    assert_eq!(ordered(&s, &ids), [ids[2]], "no anchor: the range is the clicked cell");
    s.marquee(&ids, &[9, 4], &GridSelection::new(), false);
    assert_eq!(ordered(&s, &ids), [ids[4]], "hits past the end are ignored");
}

#[test]
fn thumb_window_evicts_least_recently_shown() {
    let mut w = ThumbWindow::new(3);
    assert!(w.shown(1).is_empty());
    assert!(w.shown(2).is_empty());
    assert!(w.shown(3).is_empty());
    assert_eq!(w.shown(1), Vec::<usize>::new(), "re-showing moves to the back");
    assert_eq!(w.shown(4), vec![2]);
    assert_eq!(w.shown(5), vec![3]);
    assert!(w.contains(1) && w.contains(4) && w.contains(5));
    w.clear();
    assert!(!w.contains(1));
    let mut one = ThumbWindow::new(0);
    assert!(one.shown(7).is_empty());
    assert_eq!(one.shown(8), vec![7], "capacity is at least one");
}

#[test]
fn picker_indices_map_to_entries() {
    assert_eq!(KindFilter::from_index(2), KindFilter::Videos);
    assert_eq!(KindFilter::from_index(99), KindFilter::All);
    assert_eq!(SortChoice::from_index(1), SortChoice::Name);
    assert_eq!(SortChoice::from_index(-1), SortChoice::Date);
    assert!(!SortChoice::Name.default_descending());
    assert!(SortChoice::Added.default_descending() && SortChoice::Date.default_descending());
}

#[test]
fn view_state_builds_expected_query() {
    let q = ViewState::default().query();
    assert_eq!(q.kinds, None);
    assert_eq!(q.text, None);
    assert_eq!(q.sort, SortKey::CapturedAt);
    assert!(q.descending);

    let q = ViewState {
        search: " beach ".into(),
        filter: KindFilter::from_index(2),
        sort: SortChoice::from_index(1),
        descending: SortChoice::from_index(1).default_descending(),
    }
    .query();
    assert_eq!(q.kinds, Some(vec![RefKind::Video]));
    assert_eq!(q.text.as_deref(), Some(" beach "));
    assert_eq!(q.sort, SortKey::Name);
    assert!(!q.descending);
    assert_eq!(KindFilter::from_index(99), KindFilter::All);
    assert_eq!(SortChoice::from_index(-1), SortChoice::Date);
}
