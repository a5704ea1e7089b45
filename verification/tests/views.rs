use clipforge::command::Command;
use clipforge::options::{Advanced, Container, Quality};
use clipforge::plan::Codec;
use clipforge::settings::Resolution;
use clipforge::time::FrameRate;
use clipforge::views::{clip_nav, nudge_target, options, row_count, row_of, suggested_output_name, DialogState, Nudge};

#[test]
fn nudge_left_and_right_move_the_block_by_one() {
    assert_eq!(nudge_target(6, &[2, 3], Nudge::Earlier), Some(1));
    assert_eq!(nudge_target(6, &[2, 3], Nudge::Later), Some(5));
    let Some(Command::Reorder { order }) = Command::move_clips(6, &[2, 3], 1) else {
        panic!("earlier must reorder");
    };
    assert_eq!(order, vec![0, 2, 3, 1, 4, 5]);
    let Some(Command::Reorder { order }) = Command::move_clips(6, &[2, 3], 5) else {
        panic!("later must reorder");
    };
    assert_eq!(order, vec![0, 1, 4, 2, 3, 5]);
}

#[test]
fn nudge_at_the_edges_is_none() {
    assert_eq!(nudge_target(4, &[0], Nudge::Earlier), None);
    assert_eq!(nudge_target(4, &[3], Nudge::Later), None);
    assert_eq!(nudge_target(4, &[2, 3], Nudge::Later), None);
    assert_eq!(nudge_target(4, &[], Nudge::Later), None);
    assert_eq!(nudge_target(4, &[9], Nudge::Earlier), None, "stale index");
    assert_eq!(nudge_target(4, &[2], Nudge::Later), Some(4));
}

#[test]
fn nudge_gathers_a_scattered_selection() {
    let to = nudge_target(6, &[1, 4], Nudge::Earlier);
    assert_eq!(to, Some(0));
    let Some(Command::Reorder { order }) = Command::move_clips(6, &[1, 4], 0) else {
        panic!("must reorder");
    };
    assert_eq!(order, vec![1, 4, 0, 2, 3, 5]);
    assert_eq!(nudge_target(6, &[1, 4], Nudge::Later), Some(6));
}

#[test]
fn clip_nav_clamps_at_both_ends() {
    assert_eq!(clip_nav(None, 0, true), None, "empty timeline");
    assert_eq!(clip_nav(None, 3, true), Some(0), "no focus yet: first clip");
    assert_eq!(clip_nav(None, 3, false), Some(2), "no focus yet going back: last clip");
    assert_eq!(clip_nav(Some(0), 3, false), Some(0));
    assert_eq!(clip_nav(Some(1), 3, true), Some(2));
    assert_eq!(clip_nav(Some(2), 3, true), Some(2));
    assert_eq!(clip_nav(Some(7), 3, false), Some(1), "stale index clamps, then moves");
}

#[test]
fn options_follow_the_dialog_state() {
    let o = options(&DialogState::default());
    assert_eq!(o.resolution, Resolution::FullHd);
    assert_eq!(o.quality, Quality::Good);
    assert_eq!(o.advanced, Advanced::default(), "index 0 is automatic");
    let o = options(&DialogState {
        resolution: 1,
        quality: 2,
        youtube: true,
        hdr: true,
        codec: 2,
        frame_rate: 5,
        video_bitrate: 1,
        audio_bitrate: 5,
        container: 1,
    });
    assert_eq!(o.resolution, Resolution::Uhd4k);
    assert_eq!(o.quality, Quality::Best);
    assert!(o.hdr && o.optimize_for_youtube);
    assert_eq!(o.advanced.codec, Some(Codec::Hevc));
    assert_eq!(o.advanced.frame_rate, Some(FrameRate::fps_60()));
    assert_eq!(o.advanced.video_bitrate_kbps, Some(8_000));
    assert_eq!(o.advanced.audio_bitrate_kbps, Some(384));
    assert_eq!(o.advanced.container, Container::Mov);
    let o = options(&DialogState { frame_rate: 99, video_bitrate: 99, ..DialogState::default() });
    assert_eq!(o.advanced.frame_rate, None);
    assert_eq!(o.advanced.video_bitrate_kbps, None);
}

#[test]
fn rows_and_positions() {
    assert_eq!(row_count(0, 4), 0);
    assert_eq!(row_count(1, 4), 1);
    assert_eq!(row_count(4, 4), 1);
    assert_eq!(row_count(5, 4), 2);
    assert_eq!(row_count(5, 0), 5, "zero columns behaves like one");
    assert_eq!(row_of(7, 4), 1);
    assert_eq!(row_of(8, 4), 2);
}

#[test]
fn first_choice_of_every_list_is_automatic() {
    let o = options(&DialogState { codec: 1, audio_bitrate: 1, frame_rate: 1, ..DialogState::default() });
    assert_eq!(o.advanced.codec, Some(Codec::H264));
    assert_eq!(o.advanced.frame_rate, Some(FrameRate::fps_24()));
    assert_eq!(o.advanced.audio_bitrate_kbps, Some(128));
    assert_eq!(o.advanced.container, Container::Mp4);
    assert_eq!(row_of(0, 0), 0);
}

#[test]
fn export_name_follows_the_project_file() {
    assert_eq!(suggested_output_name(Some("Holiday.clipforge"), "mp4"), "Holiday.mp4");
    assert_eq!(suggested_output_name(None, "mov"), "slideshow.mov");
    assert_eq!(suggested_output_name(Some("a.clipforge.b.clipforge"), "mp4"), "a.b.mp4");
    assert_eq!(suggested_output_name(Some("Rome"), "mp4"), "Rome.mp4");
}
