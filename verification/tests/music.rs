use clipforge::catalog::RefKind;
use clipforge::command::Command;
use clipforge::ids::MediaId;
use clipforge::music::{playlist_length, song_spans, song_spans_from, Music, Song};
use clipforge::project::{Clip, MediaRef, Project};
use clipforge::time::{Ticks, FLICKS_PER_SECOND};

fn media(kind: RefKind, secs: Option<i64>) -> MediaRef {
    MediaRef {
        id: MediaId::new(),
        kind,
        path: "/m".to_owned(),
        fingerprint_hash: 1,
        size: 1,
        pixel_size: None,
        duration: secs.map(Ticks::from_seconds),
        captured_at_ms: None,
        name: "m".to_owned(),
    }
}

fn show(photos: usize, songs: &[i64]) -> Project {
    let mut p = Project::new();
    let photo = media(RefKind::Photo, None);
    Command::InsertClips {
        entries: (0..photos).map(|i| (i, Clip::photo(photo.id, Ticks::from_seconds(4)))).collect(),
        media: vec![photo],
    }
    .apply(&mut p)
    .unwrap();
    let refs: Vec<MediaRef> = songs.iter().map(|s| media(RefKind::Audio, Some(*s))).collect();
    let mut music = Music::default_music();
    music.songs = refs.iter().map(|m| Song::new(m.id)).collect();
    Command::SetMusic { music, media: refs }.apply(&mut p).unwrap();
    p
}

fn secs(t: Ticks) -> i64 {
    t.flicks() / FLICKS_PER_SECOND
}

#[test]
fn songs_play_back_to_back_and_stop_with_the_show() {
    let p = show(5, &[7, 5]);
    let spans = song_spans(&p, Ticks::from_seconds(20));
    let summary: Vec<(usize, i64, i64)> = spans.iter().map(|s| (s.song, secs(s.start), secs(s.length))).collect();
    assert_eq!(summary, vec![(0, 0, 7), (1, 7, 5), (0, 12, 7), (1, 19, 1)]);
    assert_eq!(playlist_length(&p), Ticks::from_seconds(12));
}

#[test]
fn without_loop_the_playlist_plays_once() {
    let mut p = show(5, &[7, 5]);
    p.music.looped = false;
    let spans = song_spans(&p, Ticks::from_seconds(20));
    assert_eq!(spans.len(), 2);
    assert_eq!(spans[1].end(), Ticks::from_seconds(12));
    let p = show(1, &[60]);
    let spans = song_spans(&p, Ticks::from_seconds(4));
    assert_eq!(spans.len(), 1);
    assert_eq!(spans[0].length, Ticks::from_seconds(4));
}

#[test]
fn unknown_durations_are_skipped_and_never_loop_forever() {
    let mut p = show(2, &[]);
    let silent = media(RefKind::Audio, None);
    let mut music = Music::default_music();
    music.songs.push(Song::new(silent.id));
    Command::SetMusic { music, media: vec![silent] }.apply(&mut p).unwrap();
    assert!(song_spans(&p, Ticks::from_seconds(8)).is_empty());
    assert_eq!(playlist_length(&p), Ticks::zero());
}

#[test]
fn spans_from_the_middle_start_inside_a_song() {
    let p = show(5, &[7, 5]);
    let spans = song_spans_from(&p, Ticks::from_seconds(20), Ticks::from_seconds(9));
    assert_eq!(spans[0].song, 1);
    assert_eq!(spans[0].start, Ticks::from_seconds(9));
    assert_eq!(spans[0].source_start, Ticks::from_seconds(2));
    assert_eq!(spans[0].length, Ticks::from_seconds(3));
    assert_eq!(spans.len(), 3);
}

#[test]
fn default_music_loops_ducks_and_fades_out() {
    let m = Music::default_music();
    assert!(m.looped && m.duck);
    assert!(m.songs.is_empty());
    assert_eq!(m.volume_percent, 100);
    assert_eq!(m.fade_in, Ticks::zero());
    assert_eq!(m.gain_percent(), 100);
}

#[test]
fn no_songs_or_an_empty_show_give_no_spans() {
    let p = show(2, &[]);
    assert!(song_spans(&p, Ticks::from_seconds(8)).is_empty());
    let p = show(2, &[5]);
    assert!(song_spans(&p, Ticks::zero()).is_empty());
    assert!(song_spans_from(&p, Ticks::from_seconds(8), Ticks::from_seconds(8)).is_empty());
}
