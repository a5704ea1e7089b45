use clipforge::catalog::{CaptionStyle, Fit, Motion, Quarter, RefKind, TitleBackground, TransitionKind};
use clipforge::command::{Command, CommandError, CommandLabel};
use clipforge::ids::MediaId;
use clipforge::project::{Caption, Clip, ClipSource, MediaRef, Project, ProjectSettings, Transition};
use clipforge::time::{Ticks, FLICKS_PER_SECOND};

fn media_ref(kind: RefKind, duration: Option<Ticks>) -> MediaRef {
    MediaRef {
        id: MediaId::new(),
        kind,
        path: "/p".to_owned(),
        fingerprint_hash: 1,
        size: 1,
        pixel_size: Some((100, 50)),
        duration,
        captured_at_ms: None,
        name: "p".to_owned(),
    }
}

fn project_with(n: usize) -> Project {
    let mut p = Project::new();
    let m = media_ref(RefKind::Photo, None);
    let entries = (0..n).map(|i| (i, Clip::photo(m.id, Ticks::from_seconds(i as i64 + 1)))).collect();
    Command::InsertClips { entries, media: vec![m] }.apply(&mut p).unwrap();
    p
}

fn durations(p: &Project) -> Vec<i64> {
    p.clips.iter().map(|c| c.duration().flicks() / FLICKS_PER_SECOND).collect()
}

#[test]
fn insert_then_inverse_restores() {
    let mut p = Project::new();
    let original = p.clone();
    let m = media_ref(RefKind::Photo, None);
    let inv = Command::InsertClips {
        entries: vec![(0, Clip::photo(m.id, Ticks::second())), (1, Clip::photo(m.id, Ticks::second()))],
        media: vec![m],
    }
    .apply(&mut p)
    .unwrap();
    assert_eq!(p.clips.len(), 2);
    assert_eq!(inv, Command::RemoveClips { indices: vec![0, 1] });
    inv.apply(&mut p).unwrap();
    p.prune_media();
    assert_eq!(p, original);
}

#[test]
fn insert_rejects_unknown_media_and_bad_clips() {
    let mut p = Project::new();
    let err = Command::InsertClips { entries: vec![(0, Clip::photo(MediaId::new(), Ticks::second()))], media: vec![] }
        .apply(&mut p)
        .unwrap_err();
    assert_eq!(err, CommandError::UnknownMedia);
    let m = media_ref(RefKind::Photo, None);
    let err = Command::InsertClips { entries: vec![(0, Clip::photo(m.id, Ticks::zero()))], media: vec![m] }
        .apply(&mut p)
        .unwrap_err();
    assert_eq!(err, CommandError::NonPositiveDuration);
    assert!(p.clips.is_empty());
}

#[test]
fn remove_non_contiguous_and_undo() {
    let mut p = project_with(5);
    let before = p.clone();
    let inv = Command::RemoveClips { indices: vec![3, 0, 4] }.apply(&mut p).unwrap();
    assert_eq!(durations(&p), [2, 3]);
    inv.apply(&mut p).unwrap();
    assert_eq!(p, before);
    assert_eq!(
        Command::RemoveClips { indices: vec![9] }.apply(&mut p).unwrap_err(),
        CommandError::IndexOutOfRange { index: 9, len: 5 }
    );
    assert_eq!(
        Command::RemoveClips { indices: vec![1, 1] }.apply(&mut p).unwrap_err(),
        CommandError::DuplicateIndex(1)
    );
}

#[test]
fn reorder_and_inverse() {
    let mut p = project_with(4);
    let before = p.clone();
    let inv = Command::Reorder { order: vec![3, 1, 0, 2] }.apply(&mut p).unwrap();
    assert_eq!(durations(&p), [4, 2, 1, 3]);
    inv.apply(&mut p).unwrap();
    assert_eq!(p, before);
    assert_eq!(Command::Reorder { order: vec![0, 0, 1, 2] }.apply(&mut p).unwrap_err(), CommandError::BadPermutation);
    assert_eq!(Command::Reorder { order: vec![0] }.apply(&mut p).unwrap_err(), CommandError::BadPermutation);
}

#[test]
fn move_clips_builds_the_right_permutation() {
    assert_eq!(Command::move_clips(5, &[3, 1], 0), Some(Command::Reorder { order: vec![1, 3, 0, 2, 4] }));
    assert_eq!(Command::move_clips(5, &[0], 5), Some(Command::Reorder { order: vec![1, 2, 3, 4, 0] }));
    assert_eq!(Command::move_clips(5, &[1, 2], 3), None);
    assert_eq!(Command::move_clips(5, &[1, 2], 4), Some(Command::Reorder { order: vec![0, 3, 1, 2, 4] }));
    assert_eq!(Command::move_clips(5, &[], 0), None);
    assert_eq!(Command::move_clips(5, &[1], 6), None);
}

#[test]
fn bulk_duration_is_one_step_and_undoes_exactly() {
    let mut p = project_with(4);
    let before = p.clone();
    let inv = Command::SetPhotoDuration { indices: vec![0, 2, 3], duration: Ticks::from_seconds(7) }
        .apply(&mut p)
        .unwrap();
    assert_eq!(durations(&p), [7, 2, 7, 7]);
    inv.apply(&mut p).unwrap();
    assert_eq!(p, before);
    assert_eq!(
        Command::SetPhotoDuration { indices: vec![0], duration: Ticks::zero() }.apply(&mut p).unwrap_err(),
        CommandError::NonPositiveDuration
    );
}

#[test]
fn video_trim_rules() {
    let mut p = Project::new();
    let m = media_ref(RefKind::Video, Some(Ticks::from_seconds(10)));
    let clip = Clip::video(m.id, Ticks::from_seconds(10));
    Command::InsertClips { entries: vec![(0, clip)], media: vec![m] }.apply(&mut p).unwrap();
    let before = p.clone();
    let inv = Command::SetTrim { index: 0, in_point: Ticks::from_seconds(2), out_point: Ticks::from_seconds(5) }
        .apply(&mut p)
        .unwrap();
    assert_eq!(p.clips[0].duration(), Ticks::from_seconds(3));
    inv.apply(&mut p).unwrap();
    assert_eq!(p, before);
    assert_eq!(
        Command::SetTrim { index: 0, in_point: Ticks::from_seconds(2), out_point: Ticks::from_seconds(11) }
            .apply(&mut p)
            .unwrap_err(),
        CommandError::InvalidTrim
    );
    assert_eq!(
        Command::SetPhotoDuration { indices: vec![0], duration: Ticks::second() }.apply(&mut p).unwrap_err(),
        CommandError::NotApplicable { index: 0, reason: "not a photo or title" }
    );
}

#[test]
fn setters_and_settings_round_trip() {
    let mut p = project_with(3);
    let before = p.clone();
    let t = Transition { kind: TransitionKind::CrossDissolve, duration: Ticks::second() };
    let inv = Command::Batch {
        commands: vec![
            Command::SetFit { indices: vec![0, 1], fit: Fit::Cover },
            Command::SetRotate { indices: vec![2], rotate: Quarter::Cw90 },
            Command::SetTransition { indices: vec![1, 2], transition: t },
            Command::SetMuted { indices: vec![0], muted: true },
            Command::SetVolume { indices: vec![1], percent: 50 },
            Command::SetSettings {
                settings: ProjectSettings { default_photo_duration: Ticks::second(), ..ProjectSettings::default_settings() },
            },
        ],
    }
    .apply(&mut p)
    .unwrap();
    assert_eq!(p.clips[0].fit, Fit::Cover);
    assert_eq!(p.clips[2].rotate, Quarter::Cw90);
    assert_eq!(p.clips[1].transition_in, t);
    assert!(p.clips[0].muted);
    assert_eq!(p.clips[0].gain_percent(), 0);
    assert_eq!(p.clips[1].volume_percent, 50);
    assert_eq!(p.clips[1].gain_percent(), 50);
    assert_eq!(p.settings.default_photo_duration, Ticks::second());
    inv.apply(&mut p).unwrap();
    assert_eq!(p, before);
}

#[test]
fn motion_commands_apply_to_photos_and_undo() {
    let mut p = project_with(3);
    let before = p.clone();
    let inv = Command::SetMotion { indices: vec![0, 2], motion: Motion::ZoomIn }.apply(&mut p).unwrap();
    assert_eq!(p.clips[0].motion, Motion::ZoomIn);
    assert_eq!(p.clips[1].motion, Motion::Still);
    inv.apply(&mut p).unwrap();
    assert_eq!(p, before);
    let inv = Command::SetMotionEach { entries: vec![(0, Motion::PanLeft), (1, Motion::PanUp)] }.apply(&mut p).unwrap();
    assert_eq!((p.clips[0].motion, p.clips[1].motion), (Motion::PanLeft, Motion::PanUp));
    inv.apply(&mut p).unwrap();
    assert_eq!(p, before);
}

#[test]
fn motion_is_rejected_for_videos() {
    let mut p = Project::new();
    let m = media_ref(RefKind::Video, Some(Ticks::from_seconds(5)));
    Command::InsertClips { entries: vec![(0, Clip::video(m.id, Ticks::from_seconds(5)))], media: vec![m] }
        .apply(&mut p)
        .unwrap();
    let before = p.clone();
    assert_eq!(
        Command::SetMotion { indices: vec![0], motion: Motion::ZoomIn }.apply(&mut p).unwrap_err(),
        CommandError::NotApplicable { index: 0, reason: "not a photo" }
    );
    assert!(Command::SetMotionEach { entries: vec![(0, Motion::ZoomIn)] }.apply(&mut p).is_err());
    assert_eq!(p, before);
}

#[test]
fn transition_each_sets_individual_values_in_one_step() {
    let mut p = project_with(3);
    let before = p.clone();
    let a = Transition { kind: TransitionKind::WipeLeft, duration: Ticks::from_millis(500) };
    let b = Transition { kind: TransitionKind::Zoom, duration: Ticks::from_millis(800) };
    let inv = Command::SetTransitionEach { entries: vec![(1, a), (2, b)] }.apply(&mut p).unwrap();
    assert_eq!((p.clips[1].transition_in, p.clips[2].transition_in), (a, b));
    inv.apply(&mut p).unwrap();
    assert_eq!(p, before);
    let bad = Transition { kind: TransitionKind::Zoom, duration: Ticks::from_flicks(-1) };
    assert!(Command::SetTransitionEach { entries: vec![(0, bad)] }.apply(&mut p).is_err());
    assert!(Command::SetTransitionEach { entries: vec![(0, a), (0, b)] }.apply(&mut p).is_err(), "duplicate index");
}

#[test]
fn batch_rolls_back_on_failure() {
    let mut p = project_with(3);
    let before = p.clone();
    let err = Command::Batch {
        commands: vec![
            Command::SetFit { indices: vec![0], fit: Fit::Cover },
            Command::RemoveClips { indices: vec![42] },
        ],
    }
    .apply(&mut p)
    .unwrap_err();
    assert!(matches!(err, CommandError::IndexOutOfRange { .. }));
    assert_eq!(p, before);
}

#[test]
fn title_cards_need_no_media_and_take_a_duration() {
    let mut p = project_with(2);
    let title = Clip::title("Summer".to_owned(), TitleBackground::Blue, Ticks::from_seconds(3));
    Command::InsertClips { entries: vec![(0, title)], media: vec![] }.apply(&mut p).unwrap();
    assert!(p.validate().is_ok());
    assert!(p.clips[0].is_title() && p.clips[0].is_still());
    assert_eq!(p.clips[0].caption.as_ref().map(|c| c.style), Some(CaptionStyle::Headline));
    Command::SetPhotoDuration { indices: vec![0, 1], duration: Ticks::from_seconds(5) }.apply(&mut p).unwrap();
    assert_eq!(durations(&p), vec![5, 5, 2]);
    assert!(matches!(p.clips[0].source, ClipSource::Title { background: TitleBackground::Blue, .. }));
    let inv = Command::SetTitleBackground { indices: vec![0], background: TitleBackground::White }.apply(&mut p).unwrap();
    assert!(matches!(p.clips[0].source, ClipSource::Title { background: TitleBackground::White, .. }));
    inv.apply(&mut p).unwrap();
    assert!(matches!(p.clips[0].source, ClipSource::Title { background: TitleBackground::Blue, .. }));
    assert!(Command::SetTitleBackground { indices: vec![1], background: TitleBackground::Red }.apply(&mut p).is_err());
    assert!(Command::SetMotion { indices: vec![0], motion: Motion::ZoomIn }.apply(&mut p).is_err());
}

#[test]
fn captions_are_set_per_clip_and_undo_in_one_step() {
    let mut p = project_with(3);
    let original = p.clone();
    let inv = Command::SetCaptions {
        entries: vec![
            (0, Some(Caption::new("Rome".to_owned(), CaptionStyle::Classic))),
            (2, Some(Caption::new("Paris".to_owned(), CaptionStyle::Banner))),
        ],
    }
    .apply(&mut p)
    .unwrap();
    assert_eq!(p.clips[0].caption.as_ref().unwrap().text, "Rome");
    assert!(p.clips[1].caption.is_none());
    assert_eq!(p.clips[2].caption.as_ref().unwrap().style, CaptionStyle::Banner);
    let remove = Command::SetCaptions { entries: vec![(0, None)] }.apply(&mut p).unwrap();
    assert!(p.clips[0].caption.is_none());
    remove.apply(&mut p).unwrap();
    inv.apply(&mut p).unwrap();
    assert_eq!(p, original);
    assert!(Command::SetCaptions { entries: vec![(9, None)] }.apply(&mut p).is_err());
}

#[test]
fn each_command_error_has_an_input_that_gives_it() {
    let mut p = project_with(2);
    assert_eq!(
        Command::SetFit { indices: vec![2], fit: Fit::Cover }.apply(&mut p).unwrap_err(),
        CommandError::IndexOutOfRange { index: 2, len: 2 }
    );
    assert_eq!(
        Command::SetMuted { indices: vec![0, 0], muted: true }.apply(&mut p).unwrap_err(),
        CommandError::DuplicateIndex(0)
    );
    assert_eq!(
        Command::SetTrim { index: 0, in_point: Ticks::zero(), out_point: Ticks::second() }.apply(&mut p).unwrap_err(),
        CommandError::NotApplicable { index: 0, reason: "not a video" }
    );
    Command::SetVolume { indices: vec![0], percent: 301 }.apply(&mut p).unwrap();
    assert_eq!(p.clips[0].volume_percent, 300, "volume is capped");
}

#[test]
fn a_failed_command_leaves_the_clips_alone() {
    let mut p = project_with(3);
    let before = p.clone();
    assert!(Command::SetFit { indices: vec![0, 7], fit: Fit::Cover }.apply(&mut p).is_err());
    assert_eq!(p, before);
}

#[test]
fn labels_name_what_a_command_changes() {
    assert_eq!(Command::RemoveClips { indices: vec![] }.label(), CommandLabel::Remove);
    assert_eq!(Command::Reorder { order: vec![] }.label(), CommandLabel::Reorder);
    assert_eq!(Command::SetCaptions { entries: vec![] }.label(), CommandLabel::Caption);
}

#[test]
fn remove_reports_the_smallest_repeat_then_the_largest_index() {
    let mut p = project_with(5);
    let before = p.clone();
    assert_eq!(Command::RemoveClips { indices: vec![9] }.apply(&mut p), Err(CommandError::IndexOutOfRange { index: 9, len: 5 }));
    assert_eq!(Command::RemoveClips { indices: vec![1, 1] }.apply(&mut p), Err(CommandError::DuplicateIndex(1)));
    assert_eq!(Command::RemoveClips { indices: vec![3, 9, 1, 3, 1] }.apply(&mut p), Err(CommandError::DuplicateIndex(1)));
    assert_eq!(
        Command::RemoveClips { indices: vec![2, 7, 6] }.apply(&mut p),
        Err(CommandError::IndexOutOfRange { index: 7, len: 5 })
    );
    assert_eq!(p, before);
    let kept: Vec<i64> = vec![durations(&p)[0], durations(&p)[2], durations(&p)[4]];
    Command::RemoveClips { indices: vec![3, 1] }.apply(&mut p).unwrap();
    assert_eq!(durations(&p), kept);
}

#[test]
fn failed_insert_inserts_nothing() {
    let mut p = project_with(3);
    let before = p.clone();
    let title = || Clip::title("Hello".to_owned(), TitleBackground::Black, Ticks::second());
    let err = Command::InsertClips { entries: vec![(0, title()), (99, title())], media: vec![] }.apply(&mut p);
    assert_eq!(err, Err(CommandError::IndexOutOfRange { index: 99, len: 4 }));
    assert_eq!(p, before);
    let ok = Command::InsertClips { entries: vec![(0, title()), (4, title())], media: vec![] }.apply(&mut p);
    assert!(ok.is_ok());
    assert_eq!(p.clips.len(), 5);
}
