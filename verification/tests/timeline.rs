use clipforge::catalog::TransitionKind;
use clipforge::ids::MediaId;
use clipforge::project::{Clip, Project, Transition};
use clipforge::time::Ticks;
use clipforge::timeline::{
    effective_overlap, frame_at, opening_overlap, placements, project_placements, total_duration, Placement,
};

fn photo(secs: i64) -> Clip {
    Clip::photo(MediaId::new(), Ticks::from_seconds(secs))
}

fn with_dissolve(mut c: Clip, ms: i64) -> Clip {
    c.transition_in = Transition { kind: TransitionKind::CrossDissolve, duration: Ticks::from_millis(ms) };
    c
}

#[test]
fn cuts_lay_clips_end_to_end() {
    let clips = vec![photo(3), photo(2), photo(5)];
    let p = placements(&clips);
    assert_eq!(p[0], Placement { index: 0, start: Ticks::zero(), end: Ticks::from_seconds(3) });
    assert_eq!(p[1].start, Ticks::from_seconds(3));
    assert_eq!(p[2].end, Ticks::from_seconds(10));
    assert_eq!(total_duration(&clips), Ticks::from_seconds(10));
    assert_eq!(total_duration(&[]), Ticks::zero());
}

#[test]
fn transitions_overlap_and_shorten_the_total() {
    let clips = vec![photo(4), with_dissolve(photo(4), 1000), with_dissolve(photo(4), 500)];
    let p = placements(&clips);
    assert_eq!(p[1].start, Ticks::from_seconds(3));
    assert_eq!(p[2].start, Ticks::from_millis(6_500));
    assert_eq!(total_duration(&clips), Ticks::from_millis(10_500));
}

#[test]
fn overlap_is_capped_at_half_of_the_shorter_neighbour() {
    let clips = vec![photo(1), with_dissolve(photo(10), 5000)];
    assert_eq!(effective_overlap(&clips, 1), Ticks::from_millis(500));
    assert_eq!(effective_overlap(&clips, 0), Ticks::zero());
    let first_with_transition = vec![with_dissolve(photo(4), 1000)];
    assert_eq!(placements(&first_with_transition)[0].start, Ticks::zero(), "first clip never shifts");
}

#[test]
fn opening_overlap_is_capped_like_any_overlap() {
    assert_eq!(opening_overlap(&[]), Ticks::zero());
    assert_eq!(opening_overlap(&[photo(4)]), Ticks::zero(), "a cut has no opening");
    assert_eq!(opening_overlap(&[with_dissolve(photo(4), 1000)]), Ticks::second());
    assert_eq!(opening_overlap(&[with_dissolve(photo(1), 3000)]), Ticks::from_millis(500));
}

#[test]
fn frame_at_resolves_current_and_outgoing() {
    let clips = vec![photo(4), with_dissolve(photo(4), 1000)];
    let f = frame_at(&clips, Ticks::from_seconds(1)).unwrap();
    assert_eq!(f.current, (0, Ticks::from_seconds(1)));
    assert_eq!(f.outgoing, None);
    let f = frame_at(&clips, Ticks::from_millis(3_500)).unwrap();
    assert_eq!(f.current, (1, Ticks::from_millis(500)));
    assert_eq!(f.outgoing, Some((0, Ticks::from_millis(3_500))));
    let (elapsed, length) = f.progress;
    assert_eq!(elapsed.flicks() * 2, length.flicks());
    let f = frame_at(&clips, Ticks::from_seconds(5)).unwrap();
    assert_eq!(f.current, (1, Ticks::from_seconds(2)));
    assert_eq!(f.outgoing, None);
    assert!(frame_at(&clips, Ticks::from_seconds(7)).is_none());
    assert!(frame_at(&clips, Ticks::from_flicks(-1)).is_none());
    assert!(frame_at(&[], Ticks::zero()).is_none());
    assert_eq!(frame_at(&clips, Ticks::zero()).unwrap().current, (0, Ticks::zero()));
}

#[test]
fn cut_boundary_belongs_to_the_next_clip() {
    let clips = vec![photo(2), photo(2)];
    assert_eq!(frame_at(&clips, Ticks::from_seconds(2)).unwrap().current, (1, Ticks::zero()));
    assert_eq!(frame_at(&clips, Ticks::from_seconds(2).minus(Ticks::from_flicks(1))).unwrap().current.0, 0);
}

#[test]
fn placements_contain_their_own_instants() {
    let clips = vec![photo(2), photo(3)];
    let p = placements(&clips);
    assert!(p[1].contains(Ticks::from_seconds(2)));
    assert!(!p[1].contains(Ticks::from_seconds(5)));
    assert_eq!(p[1].duration(), Ticks::from_seconds(3));
    let f = frame_at(&clips, Ticks::second()).unwrap();
    assert_eq!(f.progress, (Ticks::from_flicks(1), Ticks::from_flicks(1)));
    assert!(project_placements(&Project::new()).is_empty());
}
