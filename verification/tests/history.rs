use clipforge::catalog::{Fit, RefKind};
use clipforge::command::{Command, CommandLabel};
use clipforge::history::History;
use clipforge::ids::MediaId;
use clipforge::project::{Caption, Clip, MediaRef, Project};
use clipforge::catalog::CaptionStyle;
use clipforge::time::Ticks;

fn seeded() -> Project {
    let mut p = Project::new();
    let m = MediaRef {
        id: MediaId::new(),
        kind: RefKind::Photo,
        path: "/a".to_owned(),
        fingerprint_hash: 1,
        size: 1,
        pixel_size: None,
        duration: None,
        captured_at_ms: None,
        name: "a".to_owned(),
    };
    let clips = (0..3).map(|i| (i, Clip::photo(m.id, Ticks::from_seconds(2)))).collect();
    Command::InsertClips { entries: clips, media: vec![m] }.apply(&mut p).unwrap();
    p
}

#[test]
fn undo_redo_walk_back_and_forth() {
    let mut p = seeded();
    let mut h = History::new();
    let s0 = p.clone();
    h.apply(&mut p, Command::SetFit { indices: vec![0], fit: Fit::Cover }).unwrap();
    let s1 = p.clone();
    h.apply(&mut p, Command::RemoveClips { indices: vec![2] }).unwrap();
    let s2 = p.clone();
    assert!(h.is_dirty());
    assert_eq!(h.undo_label(), Some(CommandLabel::Remove));
    assert_eq!(h.undo(&mut p), Some(CommandLabel::Remove));
    assert_eq!(p, s1);
    assert_eq!(h.undo(&mut p), Some(CommandLabel::Fit));
    assert_eq!(p, s0);
    assert!(!h.is_dirty());
    assert_eq!(h.undo(&mut p), None);
    assert_eq!(h.redo(&mut p), Some(CommandLabel::Fit));
    assert_eq!(h.redo(&mut p), Some(CommandLabel::Remove));
    assert_eq!(p, s2);
    assert_eq!(h.redo(&mut p), None);
}

#[test]
fn new_command_clears_redo_and_failed_command_changes_nothing() {
    let mut p = seeded();
    let mut h = History::new();
    h.apply(&mut p, Command::SetFit { indices: vec![0], fit: Fit::Cover }).unwrap();
    h.undo(&mut p);
    assert!(h.can_redo());
    h.apply(&mut p, Command::SetFit { indices: vec![1], fit: Fit::Cover }).unwrap();
    assert!(!h.can_redo());
    let before = p.clone();
    assert!(h.apply(&mut p, Command::RemoveClips { indices: vec![99] }).is_err());
    assert_eq!(p, before);
    assert_eq!(h.undo_label(), Some(CommandLabel::Fit));
}

#[test]
fn saved_marker_tracks_dirtiness_through_undo() {
    let mut p = seeded();
    let mut h = History::new();
    h.apply(&mut p, Command::SetFit { indices: vec![0], fit: Fit::Cover }).unwrap();
    h.mark_saved();
    assert!(!h.is_dirty());
    h.undo(&mut p);
    assert!(h.is_dirty());
    h.redo(&mut p);
    assert!(!h.is_dirty());
    h.clear();
    assert!(!h.can_undo() && !h.can_redo());
}

#[test]
fn merged_caption_edits_undo_in_one_step() {
    let mut p = seeded();
    let mut h = History::new();
    let before = p.clone();
    let typed = |t: &str| Command::SetCaptions {
        entries: vec![(0, Some(Caption::new(t.to_owned(), CaptionStyle::Classic)))],
    };
    for t in ["R", "Ro", "Rom", "Rome"] {
        h.apply_merging(&mut p, typed(t), 7).unwrap();
    }
    assert_eq!(p.clips[0].caption.as_ref().unwrap().text, "Rome");
    h.undo(&mut p);
    assert_eq!(p, before, "one undo removes the whole typing session");
    h.redo(&mut p);
    assert_eq!(p.clips[0].caption.as_ref().unwrap().text, "Rome");
    h.seal();
    h.apply_merging(&mut p, typed("Rome!"), 7).unwrap();
    h.mark_saved();
    h.apply_merging(&mut p, typed("Rome!!"), 7).unwrap();
    assert!(h.is_dirty(), "edit after save counts");
    h.undo(&mut p);
    assert_eq!(p.clips[0].caption.as_ref().unwrap().text, "Rome!");
    h.undo(&mut p);
    assert_eq!(p.clips[0].caption.as_ref().unwrap().text, "Rome");
}

#[test]
fn a_new_history_has_nothing_to_undo() {
    let mut p = seeded();
    let mut h = History::new();
    assert!(!h.can_undo() && !h.can_redo() && !h.is_dirty());
    assert_eq!(h.undo_label(), None);
    assert_eq!(h.redo_label(), None);
    assert_eq!(h.undo(&mut p), None);
    h.apply(&mut p, Command::SetFit { indices: vec![0], fit: Fit::Cover }).unwrap();
    h.undo(&mut p);
    assert_eq!(h.redo_label(), Some(CommandLabel::Fit));
}

#[test]
fn redo_after_undo_repeats_a_batch() {
    let mut p = seeded();
    let mut h = History::new();
    let batch = Command::Batch {
        commands: vec![
            Command::RemoveClips { indices: vec![0, 2] },
            Command::SetFit { indices: vec![0], fit: Fit::Cover },
        ],
    };
    h.apply(&mut p, batch).unwrap();
    let applied = p.clone();
    assert_eq!(p.clips.len(), 1);
    assert!(h.undo(&mut p).is_some());
    assert_eq!(p.clips.len(), 3);
    assert!(h.redo(&mut p).is_some());
    assert_eq!(p, applied);
    assert!(h.can_undo());
    assert!(!h.can_redo());
}
