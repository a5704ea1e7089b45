use clipforge::catalog::{CaptionStyle, Motion, Quarter, TitleBackground, TransitionKind};

#[test]
fn transition_catalogue_is_complete_and_indexable() {
    let all = TransitionKind::all();
    for (i, k) in all.iter().enumerate() {
        assert_eq!(k.index(), i);
        assert_eq!(TransitionKind::from_index(i), *k);
    }
    assert_eq!(TransitionKind::from_index(999), TransitionKind::Cut);
    let pool = TransitionKind::shuffle_pool();
    assert!(!pool.contains(&TransitionKind::Cut));
    assert_eq!(pool.len() + 1, all.len());
    assert!(TransitionKind::FadeThroughWhite.is_fade() && !TransitionKind::WipeLeft.is_fade());
}

#[test]
fn motion_and_caption_catalogues_are_indexable() {
    for (i, m) in Motion::all().iter().enumerate() {
        assert_eq!(m.index(), i);
        assert_eq!(Motion::from_index(i), *m);
    }
    assert!(!Motion::shuffle_pool().contains(&Motion::Still));
    for (i, s) in CaptionStyle::all().iter().enumerate() {
        assert_eq!(CaptionStyle::from_index(i), *s);
        assert_eq!(s.index(), i);
    }
    for (i, b) in TitleBackground::all().iter().enumerate() {
        assert_eq!(TitleBackground::from_index(i), *b);
        assert_eq!(b.index(), i);
    }
}

#[test]
fn four_quarter_turns_come_back_upright() {
    let q = Quarter::Upright;
    assert_eq!(q.next().next().next().next(), q);
    assert!(q.next().swaps_dimensions());
    assert!(!q.next().next().swaps_dimensions());
}
