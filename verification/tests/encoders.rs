use clipforge::encoders::{Encoder, EncoderCatalog};
use clipforge::exporter::Exporter;
use clipforge::options::ExportOptions;
use clipforge::plan::{Codec, EncodePlan};
use clipforge::settings::Aspect;
use clipforge::time::FrameRate;

const SAMPLE: &str = "Encoders:\n V..... = Video\n A..... = Audio\n ------\n V....D libx264              libx264 H.264 / AVC\n V....D h264_videotoolbox    VideoToolbox H.264 Encoder\n V....D libx265              libx265 H.265 / HEVC\n A....D aac                  AAC\n S..... srt                  SubRip\n";

fn names(list: &[&str]) -> Vec<String> {
    list.iter().map(|s| (*s).to_owned()).collect()
}

#[test]
fn parses_video_encoders_only() {
    let c = EncoderCatalog::parse(SAMPLE);
    assert!(c.has("libx264") && c.has("h264_videotoolbox") && c.has("libx265"));
    assert!(!c.has("aac") && !c.has("srt") && !c.has("Video"));
}

#[test]
fn picks_hardware_first_then_software() {
    let c = EncoderCatalog::parse(SAMPLE);
    assert_eq!(c.pick(Codec::H264, true).unwrap().name, "h264_videotoolbox");
    assert_eq!(c.pick(Codec::H264, false).unwrap().name, "libx264");
    assert_eq!(c.pick(Codec::Hevc, true).unwrap().name, "libx265", "falls back to software");
    assert_eq!(
        EncoderCatalog::from_names(names(&["h264_nvenc"])).pick(Codec::H264, false).unwrap().name,
        "h264_nvenc"
    );
    assert_eq!(EncoderCatalog::default().pick(Codec::H264, true), None);
}

#[test]
fn listed_hardware_that_fails_its_test_encode_is_skipped() {
    let c = EncoderCatalog::from_names(names(&["h264_nvenc", "h264_qsv", "h264_mf", "libx264"]));
    let mut tried = Vec::new();
    let pick = c.pick_verified(Codec::H264, true, |e: &Encoder| {
        tried.push(e.name);
        e.name == "h264_mf"
    });
    assert_eq!(pick.unwrap().name, "h264_mf");
    assert_eq!(tried, ["h264_nvenc", "h264_qsv", "h264_mf"], "in preference order");
    let pick = c.pick_verified(Codec::H264, true, |_: &Encoder| false);
    assert_eq!(pick.unwrap().name, "libx264");
    let pick = c.pick_verified(Codec::H264, false, |_: &Encoder| -> bool { panic!("no probe needed") });
    assert_eq!(pick.unwrap().name, "libx264");
}

#[test]
fn an_empty_listing_has_no_encoders() {
    let c = EncoderCatalog::parse("");
    assert!(!c.has("libx264"));
    assert_eq!(c.pick(Codec::Hevc, false), None);
    assert_eq!(c.pick_verified(Codec::Hevc, true, |_: &Encoder| true), None);
}

#[test]
fn hardware_is_preferred_only_when_asked() {
    let c = EncoderCatalog::from_names(names(&["libx265", "hevc_nvenc"]));
    assert_eq!(c.pick(Codec::Hevc, true).unwrap(), Encoder { name: "hevc_nvenc", hardware: true });
    assert_eq!(c.pick(Codec::Hevc, false).unwrap(), Encoder { name: "libx265", hardware: false });
}

#[test]
fn exporter_picks_an_encoder_for_the_plan() {
    let plan = EncodePlan::build(&ExportOptions::default(), Aspect::Landscape16x9, FrameRate::fps_30());
    let mut e = Exporter::with_catalog("ffmpeg".to_owned(), EncoderCatalog::parse(SAMPLE));
    assert_eq!(e.ffmpeg(), "ffmpeg");
    e.prefer_hardware = true;
    assert_eq!(e.encoder_for(&plan, |_: &Encoder| true).unwrap().name, "h264_videotoolbox");
    assert_eq!(e.encoder_for(&plan, |_: &Encoder| false).unwrap().name, "libx264");
    let none = Exporter::with_catalog("ffmpeg".to_owned(), EncoderCatalog::default());
    assert_eq!(none.encoder_for(&plan, |_: &Encoder| true), None);
}

use clipforge::exporter::{finish, frame_step, ExportError, FrameKind, FrameStep, RunEnd};

fn small_plan() -> EncodePlan {
    let mut p = EncodePlan::build(&ExportOptions::default(), Aspect::Landscape16x9, FrameRate::fps_30());
    p.width = 320;
    p.height = 180;
    p.video_bitrate_kbps = 800;
    p
}

#[test]
fn empty_source_and_missing_encoder_fail_early() {
    let exporter = Exporter::with_catalog("ffmpeg".to_owned(), EncoderCatalog::default());
    assert_eq!(exporter.begin(&small_plan(), 0, |_: &Encoder| true), Err(ExportError::Empty));
    assert_eq!(exporter.begin(&small_plan(), 5, |_: &Encoder| true), Err(ExportError::NoEncoder(Codec::H264)));
    let ok = Exporter::with_catalog("ffmpeg".to_owned(), EncoderCatalog::parse(SAMPLE));
    assert_eq!(ok.begin(&small_plan(), 5, |_: &Encoder| false).unwrap().name, "libx264");
}

#[test]
fn wrong_frame_size_is_rejected() {
    let plan = small_plan();
    assert_eq!(frame_step(&plan, 0, FrameKind::New { width: 320, height: 180 }, false), FrameStep::Convert);
    assert_eq!(
        frame_step(&plan, 3, FrameKind::New { width: 100, height: 100 }, true),
        FrameStep::Abandon(ExportError::FrameSize { index: 3, got_w: 100, got_h: 100, want_w: 320, want_h: 180 })
    );
    assert_eq!(frame_step(&plan, 4, FrameKind::SameAsPrevious, true), FrameStep::Resend);
    assert_eq!(
        frame_step(&plan, 0, FrameKind::SameAsPrevious, false),
        FrameStep::Stop("frame source returned SameAsPrevious first".to_owned())
    );
    assert_eq!(frame_step(&plan, 0, FrameKind::Unavailable, false), FrameStep::Abandon(ExportError::HdrUnavailable));
    assert_eq!(frame_step(&plan, 9, FrameKind::Hdr { width: 320, height: 180 }, true), FrameStep::Convert);
}

fn end(cancelled: bool, write_error: Option<&str>, success: bool, bytes: u64) -> RunEnd {
    RunEnd {
        cancelled,
        write_error: write_error.map(str::to_owned),
        success,
        status: "exit status: 1".to_owned(),
        stderr: "\n  Unknown encoder  \n".to_owned(),
        bytes,
    }
}

#[test]
fn how_an_export_ends() {
    let enc = Encoder { name: "libx264", hardware: false };
    let (r, remove) = finish(end(true, None, true, 10), "o.mp4".to_owned(), 30, &enc, 5);
    assert_eq!((r, remove), (Err(ExportError::Cancelled), true));
    let failed = ExportError::Failed { status: "exit status: 1".to_owned(), stderr: "Unknown encoder".to_owned() };
    let (r, remove) = finish(end(false, Some("broken pipe"), false, 0), "o.mp4".to_owned(), 30, &enc, 5);
    assert_eq!((r.unwrap_err(), remove), (failed, false));
    let (r, remove) = finish(end(false, Some("broken pipe"), true, 0), "o.mp4".to_owned(), 30, &enc, 5);
    assert_eq!((r.unwrap_err(), remove), (ExportError::Pipe("broken pipe".to_owned()), false));
    let (r, remove) = finish(end(false, None, false, 0), "o.mp4".to_owned(), 30, &enc, 5);
    assert!(matches!(r, Err(ExportError::Failed { .. })) && remove);
    let (r, remove) = finish(end(false, None, true, 0), "o.mp4".to_owned(), 30, &enc, 5);
    assert_eq!((r, remove), (Err(ExportError::NoOutput), false));
    let (r, remove) = finish(end(false, None, true, 4096), "o.mp4".to_owned(), 30, &enc, 5);
    let report = r.unwrap();
    assert!(!remove);
    assert_eq!((report.output.as_str(), report.frames, report.encoder, report.bytes), ("o.mp4", 30, "libx264", 4096));
}

#[test]
fn hardware_only_catalog_needs_a_passing_test_encode() {
    let names = vec!["h264_nvenc".to_owned(), "h264_qsv".to_owned()];
    let exporter = Exporter::with_catalog("ffmpeg".to_owned(), EncoderCatalog::from_names(names));
    assert_eq!(exporter.begin(&small_plan(), 5, |_: &Encoder| false), Err(ExportError::NoEncoder(Codec::H264)));
    let mut tried = Vec::new();
    let e = exporter
        .begin(&small_plan(), 5, |e: &Encoder| {
            tried.push(e.name);
            e.name == "h264_qsv"
        })
        .unwrap();
    assert_eq!((e.name, e.hardware), ("h264_qsv", true));
    assert_eq!(tried, ["h264_nvenc", "h264_qsv"]);
}
