use clipforge::catalog::{RefKind, TransitionKind};
use clipforge::command::Command;
use clipforge::ids::MediaId;
use clipforge::music::{Music, Song};
use clipforge::project::{Clip, ClipSource, MediaRef, Project, Transition};
use clipforge::sound::{audio_segments, has_audio, sound_intervals};
use clipforge::time::FLICKS_PER_SECOND;
use clipforge::time::Ticks;

fn project() -> Project {
    let mut p = Project::new();
    let mut media = Vec::new();
    let mut entries = Vec::new();
    for i in 0..3 {
        let id = MediaId::new();
        media.push(MediaRef {
            id,
            kind: RefKind::Video,
            path: format!("/v{i}"),
            fingerprint_hash: 1,
            size: 1,
            pixel_size: Some((16, 9)),
            duration: Some(Ticks::from_seconds(10)),
            captured_at_ms: None,
            name: "v".to_owned(),
        });
        let mut c = Clip::video(id, Ticks::from_seconds(10));
        c.source = ClipSource::Video { in_point: Ticks::from_seconds(1), out_point: Ticks::from_seconds(3) };
        if i == 2 {
            c.transition_in = Transition { kind: TransitionKind::CrossDissolve, duration: Ticks::second() };
        }
        entries.push((i, c));
    }
    Command::InsertClips { entries, media }.apply(&mut p).unwrap();
    p
}

#[test]
fn segments_start_mid_clip_and_hand_over_at_transitions() {
    let p = project();
    let segs = audio_segments(&p, Ticks::from_millis(500));
    assert_eq!(segs.len(), 3);
    assert_eq!(segs[0].source_start, Ticks::from_millis(1_500));
    assert_eq!(segs[0].length, Ticks::from_millis(1_500));
    assert_eq!(segs[1].source_start, Ticks::from_seconds(1));
    assert_eq!(segs[1].length, Ticks::second(), "second clip stops when the third starts");
    assert_eq!(segs[2].length, Ticks::from_seconds(2));
    assert_eq!(segs[0].gain_percent, 100);
}

#[test]
fn muted_clips_and_past_clips_are_skipped() {
    let mut p = project();
    Command::SetMuted { indices: vec![0], muted: true }.apply(&mut p).unwrap();
    let segs = audio_segments(&p, Ticks::from_seconds(2));
    assert_eq!(segs.len(), 2);
    assert_eq!(segs[0].media, p.clips[1].media);
    assert!(audio_segments(&p, Ticks::from_seconds(10)).is_empty());
}

fn audio_ref(secs: i64) -> MediaRef {
    MediaRef {
        id: MediaId::new(),
        kind: RefKind::Audio,
        path: "/a".to_owned(),
        fingerprint_hash: 1,
        size: 1,
        pixel_size: None,
        duration: Some(Ticks::from_seconds(secs)),
        captured_at_ms: None,
        name: "a".to_owned(),
    }
}

#[test]
fn music_alone_counts_as_audio_and_muted_music_does_not() {
    let mut p = Project::new();
    let photo = MediaRef { kind: RefKind::Photo, duration: None, ..audio_ref(0) };
    Command::InsertClips { entries: vec![(0, Clip::photo(photo.id, Ticks::from_seconds(2)))], media: vec![photo] }
        .apply(&mut p)
        .unwrap();
    assert!(!has_audio(&p));
    let song = audio_ref(30);
    let mut music = Music::default_music();
    music.songs.push(Song::new(song.id));
    music.fade_out = Ticks::zero();
    Command::SetMusic { music, media: vec![song] }.apply(&mut p).unwrap();
    assert!(has_audio(&p));
    p.music.volume_percent = 0;
    assert!(!has_audio(&p));
}

#[test]
fn an_audible_video_is_audio() {
    let mut p = project();
    assert!(has_audio(&p));
    Command::SetMuted { indices: vec![0, 1, 2], muted: true }.apply(&mut p).unwrap();
    assert!(!has_audio(&p));
}

fn seconds_of(v: Vec<(Ticks, Ticks)>) -> Vec<(f64, f64)> {
    let s = FLICKS_PER_SECOND as f64;
    v.into_iter().map(|(a, b)| (a.0 as f64 / s, b.0 as f64 / s)).collect()
}

fn video_ref(secs: i64) -> MediaRef {
    MediaRef {
        id: MediaId::new(),
        kind: RefKind::Video,
        path: "/m".to_owned(),
        fingerprint_hash: 1,
        size: 1,
        pixel_size: None,
        duration: Some(Ticks::from_seconds(secs)),
        captured_at_ms: None,
        name: "m".to_owned(),
    }
}

#[test]
fn overlapping_sound_intervals_merge() {
    let mut p = Project::new();
    let v = video_ref(4);
    let mut b = Clip::video(v.id, Ticks::from_seconds(4));
    b.transition_in = Transition { kind: TransitionKind::CrossDissolve, duration: Ticks::second() };
    Command::InsertClips { entries: vec![(0, Clip::video(v.id, Ticks::from_seconds(4))), (1, b)], media: vec![v] }
        .apply(&mut p)
        .unwrap();
    assert_eq!(seconds_of(sound_intervals(&p)), vec![(0.0, 7.0)]);
}

#[test]
fn silent_and_still_clips_leave_gaps_between_intervals() {
    let mut p = Project::new();
    let v = video_ref(4);
    let photo = MediaRef { id: MediaId::new(), kind: RefKind::Photo, duration: None, ..video_ref(1) };
    let mut muted = Clip::video(v.id, Ticks::from_seconds(4));
    muted.muted = true;
    Command::InsertClips {
        entries: vec![
            (0, Clip::video(v.id, Ticks::from_seconds(4))),
            (1, Clip::photo(photo.id, Ticks::from_seconds(2))),
            (2, Clip::video(v.id, Ticks::from_seconds(4))),
            (3, muted),
        ],
        media: vec![v, photo],
    }
    .apply(&mut p)
    .unwrap();
    assert_eq!(seconds_of(sound_intervals(&p)), vec![(0.0, 4.0), (6.0, 10.0)]);
    assert!(sound_intervals(&Project::new()).is_empty());
}
