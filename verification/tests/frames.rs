use clipforge::catalog::{Motion, RefKind, TransitionKind};
use clipforge::command::Command;
use clipforge::frames::{FrameChoice, TimelineFrames};
use clipforge::ids::MediaId;
use clipforge::project::{Clip, MediaRef, Project, Transition};
use clipforge::time::Ticks;

fn project(secs: &[i64], dissolve: bool) -> Project {
    let mut p = Project::new();
    let mut entries = Vec::new();
    let mut media = Vec::new();
    for (i, s) in secs.iter().enumerate() {
        let id = MediaId::new();
        media.push(MediaRef {
            id,
            kind: RefKind::Photo,
            path: "/p".into(),
            fingerprint_hash: 1,
            size: 1,
            pixel_size: None,
            duration: None,
            captured_at_ms: None,
            name: "p".into(),
        });
        let mut clip = Clip::photo(id, Ticks::from_seconds(*s));
        if dissolve && i > 0 {
            clip.transition_in = Transition { kind: TransitionKind::CrossDissolve, duration: Ticks::second() };
        }
        entries.push((i, clip));
    }
    Command::InsertClips { entries, media }.apply(&mut p).unwrap();
    p
}

fn renders(p: &Project) -> usize {
    let mut frames = TimelineFrames::new(p);
    (0..frames.len()).filter(|i| matches!(frames.frame(p, *i), FrameChoice::Render(_))).count()
}

#[test]
fn frame_count_rounds_up_and_repeats_stills() {
    let p = project(&[2, 1], false);
    let mut frames = TimelineFrames::new(&p);
    assert_eq!(frames.len(), 90);
    let mut new = 0;
    for i in 0..frames.len() {
        if matches!(frames.frame(&p, i), FrameChoice::Render(_)) {
            new += 1;
        }
    }
    assert_eq!(new, 2, "one render per still");
}

#[test]
fn transitions_render_every_frame_in_the_overlap() {
    let p = project(&[2, 2], true);
    let frames = TimelineFrames::new(&p);
    // total = 3 s -> 90 frames; overlap 1.0..2.0 s = 30 frames, plus 2 stills.
    assert_eq!(frames.len(), 90);
    assert_eq!(renders(&p), 32);
}

#[test]
fn moving_photos_render_every_frame() {
    let mut p = project(&[2], false);
    Command::SetMotion { indices: vec![0], motion: Motion::ZoomIn }.apply(&mut p).unwrap();
    assert_eq!(renders(&p), 60, "2 s at 30 fps, all distinct");
}

#[test]
fn opening_transition_frames_are_rendered_individually() {
    let mut p = project(&[2], false);
    let t = Transition { kind: TransitionKind::SlideLeft, duration: Ticks::second() };
    Command::SetTransition { indices: vec![0], transition: t }.apply(&mut p).unwrap();
    assert_eq!(renders(&p), 31, "30 opening frames plus one still for the rest");
}

#[test]
fn empty_project_has_no_frames() {
    let p = Project::new();
    let frames = TimelineFrames::new(&p);
    assert!(frames.is_empty());
}

#[test]
fn rendered_frames_are_at_whole_frame_times() {
    let p = project(&[1], false);
    let mut frames = TimelineFrames::new(&p);
    assert_eq!(frames.len(), 30);
    assert_eq!(frames.frame(&p, 0), FrameChoice::Render(Ticks(0)));
    assert_eq!(frames.frame(&p, 1), FrameChoice::SameAsPrevious);
    let mut other = TimelineFrames::new(&p);
    assert_eq!(other.frame(&p, 3), FrameChoice::Render(Ticks::from_millis(100)));
}
