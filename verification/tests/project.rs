use clipforge::catalog::{Fit, Motion, RefKind, TitleBackground, TransitionKind};
use clipforge::command::Command;
use clipforge::ids::{ClipId, MediaId};
use clipforge::music::{Music, Song};
use clipforge::project::{Clip, ClipSource, MediaRef, Project, Transition};
use clipforge::time::Ticks;

fn media(kind: RefKind, secs: Option<i64>) -> MediaRef {
    MediaRef {
        id: MediaId::new(),
        kind,
        path: "/photos/a.jpg".to_owned(),
        fingerprint_hash: 42,
        size: 1234,
        pixel_size: Some((4032, 3024)),
        duration: secs.map(Ticks::from_seconds),
        captured_at_ms: Some(1_700_000_000_000),
        name: "a.jpg".to_owned(),
    }
}

fn sample() -> Project {
    let mut p = Project::new();
    p.name = "Holiday".to_owned();
    let m = media(RefKind::Photo, None);
    let unused = MediaRef { id: MediaId::new(), ..m.clone() };
    Command::InsertClips { entries: vec![(0, Clip::photo(m.id, Ticks::from_seconds(3)))], media: vec![m, unused] }
        .apply(&mut p)
        .unwrap();
    p
}

#[test]
fn pruning_keeps_clips_and_drops_unused_media() {
    let mut p = sample();
    assert_eq!(p.media.len(), 2);
    let clips = p.clips.clone();
    p.prune_media();
    assert_eq!(p.media.len(), 1);
    assert_eq!(p.clips, clips);
    assert_eq!(p.name, "Holiday");
    assert!(p.validate().is_ok());
}

#[test]
fn new_projects_use_the_default_settings() {
    let p = Project::new();
    assert!(p.clips.is_empty() && p.media.is_empty() && p.texts.is_empty());
    assert_eq!(p.settings.default_photo_duration, Ticks::from_seconds(4));
    assert_eq!(p.settings.default_transition.kind, TransitionKind::Cut);
    assert_eq!(p.settings.default_fit, Fit::Contain);
    assert_eq!(p.settings.default_motion, Motion::Still);
    assert_eq!(p.version, clipforge::PROJECT_FORMAT_VERSION);
    assert!(p.validate().is_ok());
}

#[test]
fn validation_names_the_first_problem() {
    let mut p = sample();
    let stray = MediaId::from_u128(1);
    p.clips[0].media = stray;
    assert_eq!(
        p.validate(),
        Err("clip 0 references unknown media 00000000-0000-0000-0000-000000000001".to_owned())
    );
    let mut p = sample();
    p.clips[0].source = ClipSource::Photo { duration: Ticks::zero() };
    assert_eq!(p.validate(), Err("clip 0 has non-positive duration".to_owned()));
    let mut p = sample();
    p.clips[0].transition_in = Transition { kind: TransitionKind::Zoom, duration: Ticks::from_flicks(-1) };
    assert_eq!(p.validate(), Err("clip 0 has a negative transition".to_owned()));
    let mut p = sample();
    let twin = p.clips[0].clone();
    p.clips.push(twin);
    assert_eq!(p.validate(), Err("duplicate clip ids".to_owned()));
    let mut p = sample();
    p.music.volume_percent = 201;
    assert_eq!(p.validate(), Err("music volume out of range".to_owned()));
    assert_eq!(p.validate_music(), Err("music volume out of range".to_owned()));
}

#[test]
fn video_trims_are_checked_against_the_source() {
    let mut p = Project::new();
    let v = media(RefKind::Video, Some(10));
    let id = v.id;
    Command::InsertClips { entries: vec![(0, Clip::video(id, Ticks::from_seconds(10)))], media: vec![v] }
        .apply(&mut p)
        .unwrap();
    p.clips[0].source = ClipSource::Video { in_point: Ticks::zero(), out_point: Ticks::from_seconds(11) };
    assert_eq!(p.validate(), Err("clip 0 out point exceeds source duration".to_owned()));
    p.clips[0].source = ClipSource::Video { in_point: Ticks::from_seconds(3), out_point: Ticks::from_seconds(3) };
    assert_eq!(p.validate(), Err("clip 0 has an invalid trim range".to_owned()));
}

#[test]
fn songs_must_refer_to_known_media() {
    let mut p = sample();
    let mut music = Music::default_music();
    music.songs.push(Song::new(MediaId::from_u128(2)));
    assert!(Command::SetMusic { music, media: vec![] }.apply(&mut p).is_err());
    assert!(p.music.songs.is_empty());
    p.music.songs.push(Song::new(MediaId::from_u128(2)));
    assert_eq!(
        p.validate_music(),
        Err("song 0 references unknown media 00000000-0000-0000-0000-000000000002".to_owned())
    );
}

#[test]
fn lookups_by_id() {
    let p = sample();
    let id = p.clips[0].id;
    assert_eq!(p.index_of(id), Some(0));
    assert_eq!(p.index_of(ClipId::new()), None);
    let m = p.clips[0].media;
    assert_eq!(p.media_ref(m).unwrap().name, "a.jpg");
    assert!(p.media_ref(MediaId::from_u128(5)).is_none());
}

#[test]
fn clip_kinds_and_titles() {
    let t = Clip::title("End".to_owned(), TitleBackground::Black, Ticks::second());
    assert!(t.is_title() && t.is_still() && !t.is_photo() && !t.is_video());
    assert_eq!(t.media, MediaId::none());
    assert_eq!(t.caption.as_ref().unwrap().text, "End");
    let v = Clip::video(MediaId::from_u128(3), Ticks::from_seconds(2));
    assert!(v.is_video() && !v.is_still());
    assert_eq!(v.duration(), Ticks::from_seconds(2));
    assert_eq!(v.gain_percent(), 100);
    assert_eq!(Transition::cut().overlap(), Ticks::zero());
}
