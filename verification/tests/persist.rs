use clipforge::catalog::RefKind;
use clipforge::command::Command;
use clipforge::ids::MediaId;
use clipforge::persist::{LegacyCaption, LoadError};
use clipforge::project::{Clip, MediaRef, Project};
use clipforge::text::TextAlign;
use clipforge::time::Ticks;

fn sample() -> Project {
    let mut p = Project::new();
    p.name = "Holiday".to_owned();
    let m = MediaRef {
        id: MediaId::new(),
        kind: RefKind::Photo,
        path: "/photos/a.jpg".to_owned(),
        fingerprint_hash: 42,
        size: 1234,
        pixel_size: Some((4032, 3024)),
        duration: None,
        captured_at_ms: Some(1_700_000_000_000),
        name: "a.jpg".to_owned(),
    };
    let unused = MediaRef { id: MediaId::new(), ..m.clone() };
    Command::InsertClips { entries: vec![(0, Clip::photo(m.id, Ticks::from_seconds(3)))], media: vec![m, unused] }
        .apply(&mut p)
        .unwrap();
    p
}

fn caption(clip: usize, text: &str, style: &str) -> LegacyCaption {
    LegacyCaption { clip, text: text.to_owned(), style: style.to_owned() }
}

#[test]
fn round_trips_and_prunes_unused_media() {
    let mut p = sample();
    p.version = 0;
    assert_eq!(p.media.len(), 2);
    let saved = p.for_saving();
    assert_eq!(saved.media.len(), 1);
    assert_eq!(saved.version, 1);
    assert_eq!(saved.clips, p.clips);
    let back = saved.for_saving().finish_load(Vec::new()).unwrap();
    assert_eq!(back.name, "Holiday");
    assert_eq!(back.clips, p.clips);
    assert_eq!(back.media.len(), 1);
}

#[test]
fn rejects_newer_and_invalid_files() {
    let mut p = sample();
    p.version = 99;
    assert_eq!(p.finish_load(Vec::new()).unwrap_err(), LoadError::TooNew { found: 99, supported: 1 });
    let mut p = sample();
    p.clips[0].media = MediaId::from_u128(7);
    assert_eq!(
        p.finish_load(Vec::new()).unwrap_err(),
        LoadError::Invalid("clip 0 references unknown media 00000000-0000-0000-0000-000000000007".to_owned())
    );
}

#[test]
fn old_captions_become_texts_on_load() {
    let mut p = sample();
    let m = p.clips[0].media;
    Command::InsertClips { entries: vec![(1, Clip::photo(m, Ticks::from_seconds(4)))], media: vec![] }
        .apply(&mut p)
        .unwrap();
    let clips = p.clips.clone();
    let back = p.finish_load(vec![caption(0, "  ", "classic"), caption(1, "Rome", "banner")]).unwrap();
    assert_eq!(back.texts.len(), 1, "empty captions are dropped");
    let t = &back.texts[0];
    assert_eq!(t.text, "Rome");
    assert_eq!((t.start, t.duration), (Ticks::from_seconds(3), Ticks::from_seconds(4)));
    assert_eq!(t.style.background, Some([0, 0, 0, 150]));
    assert_eq!((t.y, t.width, t.style.size), (8_600, 9_000, 440));
    assert!(!t.style.shadow);
    assert_eq!(back.clips, clips);
}

#[test]
fn each_preset_has_its_own_look_and_strays_are_dropped() {
    let p = sample();
    let back = p
        .finish_load(vec![
            caption(0, "A", "headline"),
            caption(0, "B", "corner"),
            caption(0, "C", "something else"),
            caption(5, "D", "classic"),
        ])
        .unwrap();
    assert_eq!(back.texts.len(), 3, "a caption on a missing clip is dropped");
    assert_eq!((back.texts[0].style.size, back.texts[0].style.bold), (1_000, true));
    assert_eq!((back.texts[1].x, back.texts[1].y, back.texts[1].style.align), (2_800, 9_000, TextAlign::Left));
    assert_eq!((back.texts[2].y, back.texts[2].style.size), (8_500, 520));
}

#[test]
fn a_caption_on_a_too_short_clip_is_dropped() {
    let mut p = sample();
    let m = p.clips[0].media;
    Command::InsertClips { entries: vec![(1, Clip::photo(m, Ticks::from_millis(100)))], media: vec![] }
        .apply(&mut p)
        .unwrap();
    let back = p.finish_load(vec![caption(1, "Hi", "classic")]).unwrap();
    assert!(back.texts.is_empty());
}
