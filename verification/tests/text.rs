use clipforge::text::{Font, TextAlign, TextItem, TextMotion, TextStyle};
use clipforge::time::Ticks;

#[test]
fn a_text_is_visible_over_its_span_only() {
    let t = TextItem::new("Hi".to_owned(), Ticks::from_seconds(2), Ticks::from_seconds(3));
    assert!(!t.visible_at(Ticks::from_millis(1_999)));
    assert!(t.visible_at(Ticks::from_seconds(2)));
    assert!(t.visible_at(Ticks::from_millis(4_999)));
    assert!(!t.visible_at(Ticks::from_seconds(5)));
    assert_eq!(t.end(), Ticks::from_seconds(5));
}

/// Progress as a fraction, the way the renderer reads it.
fn fraction(p: (Ticks, Ticks)) -> f32 {
    let (elapsed, span) = p;
    if span.flicks() <= 0 || elapsed.flicks() >= span.flicks() {
        1.0
    } else if elapsed.flicks() <= 0 {
        0.0
    } else {
        elapsed.flicks() as f32 / span.flicks() as f32
    }
}

#[test]
fn animations_run_at_both_ends_and_are_capped_at_half() {
    let t = TextItem::new("Hi".to_owned(), Ticks::zero(), Ticks::from_seconds(4));
    let at = Ticks::from_millis(250);
    assert_eq!(t.enter.kind, TextMotion::Fade);
    assert!((fraction(t.enter_progress(at)) - 0.5).abs() < 1e-6);
    assert!((fraction(t.exit_progress(at)) - 1.0).abs() < 1e-6);
    let at = Ticks::from_millis(3_750);
    assert!((fraction(t.exit_progress(at)) - 0.5).abs() < 1e-6);
    assert!((fraction(t.enter_progress(at)) - 1.0).abs() < 1e-6);
    let at = Ticks::from_seconds(2);
    assert_eq!((fraction(t.enter_progress(at)), fraction(t.exit_progress(at))), (1.0, 1.0));
    let mut short = TextItem::new("Hi".to_owned(), Ticks::zero(), Ticks::second());
    short.enter.duration = Ticks::from_seconds(3);
    assert!((fraction(short.enter_progress(Ticks::from_millis(250))) - 0.5).abs() < 1e-6);
    assert_eq!(short.enter_progress(Ticks::from_millis(250)).1, Ticks::from_millis(500));
    short.enter.kind = TextMotion::Cut;
    assert_eq!(fraction(short.enter_progress(Ticks::zero())), 1.0);
    assert_eq!(short.enter_progress(Ticks::zero()).1, Ticks::zero());
}

#[test]
fn validation_rejects_out_of_range_values() {
    let ok = TextItem::new("Hi".to_owned(), Ticks::zero(), Ticks::second());
    assert!(ok.validate().is_ok());
    let mut t = ok.clone();
    t.duration = Ticks::from_millis(10);
    assert_eq!(t.validate(), Err("text is too short".to_owned()));
    let mut t = ok.clone();
    t.style.size = 5;
    assert_eq!(t.validate(), Err("font size out of range".to_owned()));
    let mut t = ok;
    t.width = 10;
    assert_eq!(t.validate(), Err("text box width out of range".to_owned()));
}

#[test]
fn catalogues_are_indexable_and_names_stable() {
    for (i, f) in Font::all().iter().enumerate() {
        assert_eq!(Font::from_index(i), *f);
        assert_eq!(f.index(), i);
    }
    for (i, m) in TextMotion::all().iter().enumerate() {
        assert_eq!(TextMotion::from_index(i), *m);
        assert_eq!(m.index(), i);
    }
    for (i, a) in TextAlign::all().iter().enumerate() {
        assert_eq!(TextAlign::from_index(i), *a);
    }
    assert_eq!(TextStyle::default_style().align, TextAlign::Center);
}

#[test]
fn new_texts_are_centred_with_the_default_style() {
    let t = TextItem::new("Hi".to_owned(), Ticks::zero(), Ticks::second());
    assert_eq!((t.x, t.y), (5_000, 5_000));
    assert_eq!(t.width, 8_000);
    assert_eq!(t.style.font, Font::Inter);
    assert_eq!(t.style.color, [255, 255, 255, 255]);
    assert!(t.style.shadow && t.style.background.is_none());
    assert_eq!(t.exit.duration, Ticks::from_millis(500));
}

#[test]
fn phase_names_each_motion_with_its_progress() {
    let t = TextItem::new("Hi".to_owned(), Ticks::zero(), Ticks::from_seconds(4));
    let at = Ticks::from_millis(250);
    let ph = t.phase_at(at);
    assert_eq!(ph.enter, (t.enter.kind, t.enter_progress(at)));
    assert_eq!(ph.exit, (t.exit.kind, t.exit_progress(at)));
    assert_eq!(ph.exit.1 .0, Ticks::from_millis(3_750));
}

#[test]
fn phase_of_an_item_without_length_is_complete_at_once() {
    let mut t = TextItem::new("Hi".to_owned(), Ticks::from_seconds(1), Ticks::zero());
    t.enter.duration = Ticks::from_millis(300);
    let ph = t.phase_at(Ticks::from_seconds(1));
    assert_eq!(ph.enter.1 .1, Ticks::zero());
    assert_eq!(ph.exit.1 .1, Ticks::zero());
    let mut backwards = t.clone();
    backwards.duration = Ticks::from_millis(-400);
    assert_eq!(backwards.phase_at(Ticks::zero()).enter.1 .1, Ticks::zero());
}

#[test]
fn phase_span_is_capped_at_half_the_item() {
    let mut t = TextItem::new("Hi".to_owned(), Ticks::zero(), Ticks::from_seconds(1));
    t.enter.duration = Ticks::from_seconds(3);
    t.exit.kind = TextMotion::Cut;
    let ph = t.phase_at(Ticks::from_millis(100));
    assert_eq!(ph.enter.1, (Ticks::from_millis(100), Ticks::from_millis(500)));
    assert_eq!(ph.exit.1 .1, Ticks::zero());
}
