use clipforge::checks::{compare, ColorTransfer, Mismatch, ProbedVideo};
use clipforge::options::ExportOptions;
use clipforge::plan::EncodePlan;
use clipforge::settings::Aspect;
use clipforge::time::{FrameRate, Ticks};

fn plan(hdr: bool) -> EncodePlan {
    EncodePlan::build(&ExportOptions { hdr, ..ExportOptions::default() }, Aspect::Landscape16x9, FrameRate::fps_30())
}

fn info(codec: &str, millis: i64, transfer: ColorTransfer) -> ProbedVideo {
    ProbedVideo {
        codec: codec.into(),
        width: Some(1920),
        height: Some(1080),
        duration: Some(Ticks::from_millis(millis)),
        transfer,
        has_audio: true,
    }
}

#[test]
fn matching_output_passes() {
    let i = info("h264", 10_020, ColorTransfer::Sdr);
    assert_eq!(compare(&plan(false), 300, true, &i), vec![]);
    let i = info("hevc", 10_000, ColorTransfer::Hlg);
    assert_eq!(compare(&plan(true), 300, true, &i), vec![]);
}

#[test]
fn each_difference_is_reported() {
    let mut i = info("hevc", 8_000, ColorTransfer::Sdr);
    i.width = Some(1280);
    i.has_audio = false;
    let m = compare(&plan(false), 300, true, &i);
    assert!(matches!(m[0], Mismatch::Codec { want: "h264", .. }));
    assert!(matches!(m[1], Mismatch::Size { got_w: 1280, .. }));
    assert!(matches!(m[2], Mismatch::Duration { .. }));
    assert_eq!(m[3], Mismatch::NoAudio);
    assert_eq!(m.len(), 4);
    // HDR plan, SDR tags.
    let m = compare(&plan(true), 300, false, &info("hevc", 10_000, ColorTransfer::Sdr));
    assert!(matches!(m[..], [Mismatch::Transfer { want: ColorTransfer::Hlg, .. }]));
}

#[test]
fn length_slack_is_a_tenth_of_a_second_at_thirty_frames() {
    let p = plan(false);
    assert_eq!(compare(&p, 300, false, &info("h264", 10_100, ColorTransfer::Sdr)), vec![]);
    assert_eq!(
        compare(&p, 300, false, &info("h264", 10_101, ColorTransfer::Sdr)),
        vec![Mismatch::Duration { got: Ticks::from_millis(10_101), want: Ticks::from_seconds(10) }]
    );
    let mut missing = info("h264", 0, ColorTransfer::Sdr);
    missing.duration = None;
    missing.width = None;
    let m = compare(&p, 0, false, &missing);
    assert_eq!(m, vec![Mismatch::Size { got_w: 0, got_h: 1080, want_w: 1920, want_h: 1080 }]);
}
