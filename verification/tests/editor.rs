use clipforge::catalog::{CaptionStyle, Fit, Motion, RefKind, TitleBackground, TransitionKind};
use clipforge::command::Command;
use clipforge::editor::{
    caption_fill_entries, caption_from_file_name, caption_style_entries, caption_targets, caption_text_entries,
    caption_view, clip_flags, clips_for, media_ref_for, photo_targets, split_songs, transition_capped, CaptionView,
    ClipFlags, LibraryItem, MediaFacts, Selection,
};
use clipforge::ids::MediaId;
use clipforge::project::{Clip, MediaRef, Project, Transition};
use clipforge::time::Ticks;

fn photos(secs: &[i64]) -> Vec<Clip> {
    secs.iter().map(|s| Clip::photo(MediaId::new(), Ticks::from_seconds(*s))).collect()
}

fn audio(secs: i64, name: &str) -> MediaRef {
    MediaRef {
        id: MediaId::new(),
        kind: RefKind::Audio,
        path: "/a".to_owned(),
        fingerprint_hash: 1,
        size: 1,
        pixel_size: None,
        duration: Some(Ticks::from_seconds(secs)),
        captured_at_ms: None,
        name: name.to_owned(),
    }
}

fn photo_project(secs: &[i64]) -> Project {
    let mut p = Project::new();
    let m = MediaRef {
        kind: RefKind::Photo,
        duration: None,
        name: "IMG_1.jpg".to_owned(),
        captured_at_ms: Some(1_720_000_000_000),
        ..audio(0, "")
    };
    Command::InsertClips {
        entries: secs.iter().enumerate().map(|(i, s)| (i, Clip::photo(m.id, Ticks::from_seconds(*s)))).collect(),
        media: vec![m],
    }
    .apply(&mut p)
    .unwrap();
    p
}

fn mixed_project() -> Project {
    let mut p = Project::new();
    let photo = MediaRef {
        id: MediaId::new(),
        kind: RefKind::Photo,
        path: "/p".to_owned(),
        fingerprint_hash: 1,
        size: 1,
        pixel_size: Some((10, 10)),
        duration: None,
        captured_at_ms: None,
        name: "p".to_owned(),
    };
    let video = MediaRef { id: MediaId::new(), kind: RefKind::Video, duration: Some(Ticks::from_seconds(8)), ..photo.clone() };
    let entries = vec![
        (0, Clip::photo(photo.id, Ticks::from_seconds(4))),
        (1, Clip::video(video.id, Ticks::from_seconds(8))),
        (2, Clip::photo(photo.id, Ticks::from_seconds(1))),
        (3, Clip::photo(photo.id, Ticks::from_seconds(4))),
    ];
    Command::InsertClips { entries, media: vec![photo, video] }.apply(&mut p).unwrap();
    p
}

#[test]
fn selection_click_semantics() {
    let clips = photos(&[1, 1, 1, 1, 1]);
    let mut s = Selection::new();
    s.click(&clips, 1, false, false);
    assert_eq!(s.indices(&clips), [1]);
    s.click(&clips, 3, true, false);
    assert_eq!(s.indices(&clips), [1, 2, 3], "shift extends from anchor");
    s.click(&clips, 0, false, true);
    assert_eq!(s.indices(&clips), [0, 1, 2, 3], "toggle adds");
    s.click(&clips, 2, false, true);
    assert_eq!(s.indices(&clips), [0, 1, 3], "toggle removes");
    s.click(&clips, 4, false, false);
    assert_eq!(s.indices(&clips), [4]);
    s.click(&clips, 9, false, false);
    assert_eq!(s.indices(&clips), [4], "out of range is ignored");
    s.select_all(&clips);
    assert_eq!(s.indices(&clips).len(), 5);
    let fewer = &clips[..2];
    s.retain_existing(fewer);
    assert_eq!(s.indices(fewer), [0, 1]);
    s.clear();
    assert!(s.is_empty());
}

#[test]
fn timeline_focus_follows_clicks_and_survives_removal() {
    let clips = photos(&[1, 1, 1, 1]);
    let mut sel = Selection::new();
    sel.click(&clips, 2, false, false);
    assert_eq!(sel.focus_index(&clips), Some(2));
    sel.set_focus(&clips, 3);
    assert_eq!(sel.focus_index(&clips), Some(3));
    assert_eq!(sel.indices(&clips), vec![2], "focus alone does not select");
    sel.toggle_focused(&clips);
    assert_eq!(sel.indices(&clips), vec![2, 3]);
    let fewer = clips[..3].to_vec();
    sel.retain_existing(&fewer);
    assert_eq!(sel.focus_index(&fewer), None, "focused clip removed");
}

#[test]
fn clips_for_take_project_defaults() {
    let mut p = Project::new();
    p.settings.default_photo_duration = Ticks::from_seconds(7);
    p.settings.default_fit = Fit::Cover;
    let r = MediaRef {
        id: MediaId::new(),
        kind: RefKind::Photo,
        path: "/a".to_owned(),
        fingerprint_hash: 1,
        size: 1,
        pixel_size: Some((10, 10)),
        duration: None,
        captured_at_ms: None,
        name: "a".to_owned(),
    };
    p.settings.default_motion = Motion::ZoomOut;
    let c = clips_for(&p, std::slice::from_ref(&r));
    assert_eq!(c[0].duration(), Ticks::from_seconds(7));
    assert_eq!(c[0].motion, Motion::ZoomOut, "photos get the default motion");
    assert_eq!(c[0].fit, Fit::Cover);
    let v = MediaRef { kind: RefKind::Video, duration: Some(Ticks::from_seconds(12)), ..r };
    let c = clips_for(&p, &[v]);
    assert!(!c[0].is_photo());
    assert_eq!(c[0].motion, Motion::Still, "videos never get motion");
    assert_eq!(c[0].duration(), Ticks::from_seconds(12));
}

#[test]
fn photo_targets_skip_videos() {
    let p = mixed_project();
    assert_eq!(photo_targets(&p, &[0, 1, 2, 3]), [0, 2, 3]);
    assert_eq!(photo_targets(&p, &[1]), Vec::<usize>::new());
    assert_eq!(photo_targets(&p, &[9]), Vec::<usize>::new(), "stale index ignored");
}

#[test]
fn capped_transition_is_reported_when_a_neighbour_is_too_short() {
    let p = mixed_project();
    assert!(transition_capped(&p, &[3], Ticks::from_millis(800)));
    assert!(transition_capped(&p, &[2], Ticks::from_millis(600)));
    assert!(transition_capped(&p, &[0], Ticks::from_millis(2_500)));
}

#[test]
fn uncapped_transition_is_not_reported() {
    let p = mixed_project();
    assert!(!transition_capped(&p, &[1], Ticks::second()));
    assert!(!transition_capped(&p, &[0, 1], Ticks::from_millis(2_000)));
    assert!(!transition_capped(&p, &[], Ticks::from_seconds(10)));
}

#[test]
fn clip_view_flags_follow_motion_and_transition() {
    let mut p = mixed_project();
    assert_eq!(clip_flags(&p.clips[0]), ClipFlags { transition: 0, moving: false });
    p.clips[0].motion = Motion::PanLeft;
    p.clips[0].transition_in = Transition { kind: TransitionKind::SlideUp, duration: Ticks::second() };
    assert_eq!(clip_flags(&p.clips[0]), ClipFlags { transition: 6, moving: true });
    p.clips[1].motion = Motion::ZoomIn;
    assert!(!clip_flags(&p.clips[1]).moving, "videos never show the motion badge");
}

#[test]
fn caption_for_multi_selection_is_shared_or_mixed() {
    let mut p = photo_project(&[4, 4, 4]);
    let v = caption_view(&p, &[0, 1], CaptionStyle::Banner);
    assert_eq!(v, CaptionView { text: String::new(), mixed: false, style: CaptionStyle::Banner, any: false });
    Command::SetCaptions { entries: caption_text_entries(&p, &[0, 1], "Rome", CaptionStyle::Corner) }
        .apply(&mut p)
        .unwrap();
    let v = caption_view(&p, &[0, 1], CaptionStyle::Classic);
    assert_eq!((v.text.as_str(), v.mixed, v.style, v.any), ("Rome", false, CaptionStyle::Corner, true));
    let v = caption_view(&p, &[0, 1, 2], CaptionStyle::Classic);
    assert!(v.mixed && v.text.is_empty() && v.any);
    let e = caption_style_entries(&p, &[0, 1, 2], CaptionStyle::Banner);
    assert_eq!(e.len(), 2);
    let e = caption_text_entries(&p, &[0], "", CaptionStyle::Classic);
    assert_eq!(e, vec![(0, None)]);
}

#[test]
fn caption_from_file_name_drops_the_extension() {
    assert_eq!(caption_from_file_name("IMG_4021.jpg"), "IMG_4021");
    assert_eq!(caption_from_file_name("Rome at dusk.final.HEIC"), "Rome at dusk.final");
    assert_eq!(caption_from_file_name("noext"), "noext");
    let p = photo_project(&[4, 4]);
    let (entries, skipped) =
        caption_fill_entries(&p, &[0, 1], CaptionStyle::Classic, |m: &MediaRef| Some(caption_from_file_name(&m.name)));
    assert_eq!(skipped, 0);
    assert_eq!(entries[1].1.as_ref().unwrap().text, "IMG_1");
}

#[test]
fn file_names_are_read_like_paths() {
    assert_eq!(caption_from_file_name(".hidden"), ".hidden");
    assert_eq!(caption_from_file_name("trip."), "trip");
    assert_eq!(caption_from_file_name("a/b/c.jpg"), "c");
    assert_eq!(caption_from_file_name("a/b.d/"), "b");
    assert_eq!(caption_from_file_name("a/.."), "a/..");
    assert_eq!(caption_from_file_name(""), "");
    assert_eq!(caption_from_file_name("/"), "/");
}

#[test]
fn library_ids_split_into_clips_and_songs() {
    let p = photo_project(&[4]);
    let photo = p.media.values().next().unwrap().clone();
    let (clips, songs) = split_songs(vec![audio(3, "s"), photo.clone(), audio(4, "t")]);
    assert_eq!(clips, vec![photo]);
    assert_eq!(songs.len(), 2);
    assert_eq!(songs[1].name, "t");
}

#[test]
fn bulk_captions_leave_title_cards_alone() {
    let mut p = photo_project(&[4, 4]);
    Command::InsertClips {
        entries: vec![(0, Clip::title("Summer".to_owned(), TitleBackground::Black, Ticks::second()))],
        media: vec![],
    }
    .apply(&mut p)
    .unwrap();
    assert_eq!(caption_targets(&p, &[]), vec![1, 2], "nothing selected: no titles");
    assert_eq!(caption_targets(&p, &[0, 2]), vec![0, 2], "an explicit selection keeps them");
    let (entries, skipped) =
        caption_fill_entries(&p, &[0, 1, 2], CaptionStyle::Classic, |m: &MediaRef| Some(m.name.clone()));
    assert_eq!(entries.len(), 2);
    assert_eq!(skipped, 0, "title cards are not counted as missing a date");
    let (entries, skipped) = caption_fill_entries(&p, &[0, 1, 2], CaptionStyle::Classic, |_: &MediaRef| None);
    assert!(entries.is_empty());
    assert_eq!(skipped, 2);
}

fn library_item(kind: RefKind, secs: Option<i64>) -> LibraryItem {
    LibraryItem {
        id: MediaId::new(),
        kind,
        path: "/lib/IMG_1.jpg".to_owned(),
        fingerprint_hash: 7,
        size: 1234,
        file_name: "IMG_1.jpg".to_owned(),
        probed: true,
        info: Some(MediaFacts {
            duration: secs.map(Ticks::from_seconds),
            display_size: Some((4032, 3024)),
            captured_at_ms: Some(1_700_000_000_000),
        }),
    }
}

#[test]
fn media_refs_need_a_finished_probe_and_a_duration() {
    let photo = library_item(RefKind::Photo, Some(3));
    let r = media_ref_for(&photo).unwrap();
    assert_eq!(r.kind, RefKind::Photo);
    assert_eq!(r.duration, None, "photos carry no duration");
    assert_eq!((r.path.as_str(), r.name.as_str()), ("/lib/IMG_1.jpg", "IMG_1.jpg"));
    assert_eq!((r.id, r.fingerprint_hash, r.size), (photo.id, 7, 1234));
    assert_eq!(r.pixel_size, Some((4032, 3024)));
    assert_eq!(r.captured_at_ms, Some(1_700_000_000_000));

    let video = library_item(RefKind::Video, Some(5));
    assert_eq!(media_ref_for(&video).unwrap().duration, Some(Ticks::from_seconds(5)));
    assert!(media_ref_for(&library_item(RefKind::Video, None)).is_none());
    assert!(media_ref_for(&library_item(RefKind::Audio, Some(0))).is_none());
    assert_eq!(media_ref_for(&library_item(RefKind::Audio, Some(60))).unwrap().kind, RefKind::Audio);

    let mut pending = library_item(RefKind::Photo, None);
    pending.probed = false;
    assert!(media_ref_for(&pending).is_none());
    let mut failed = library_item(RefKind::Photo, None);
    failed.info = None;
    assert!(media_ref_for(&failed).is_none());
}
