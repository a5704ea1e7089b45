use clipforge::options::{Advanced, Container, ExportOptions, Quality};
use clipforge::plan::{Codec, EncodePlan, PixelFormat};
use clipforge::settings::{Aspect, Resolution};
use clipforge::time::FrameRate;

fn opts(hdr: bool, youtube: bool) -> ExportOptions {
    ExportOptions {
        resolution: Resolution::FullHd,
        quality: Quality::Better,
        hdr,
        optimize_for_youtube: youtube,
        advanced: Advanced::default(),
    }
}

fn build(o: &ExportOptions) -> EncodePlan {
    EncodePlan::build(o, Aspect::Landscape16x9, FrameRate::fps_30())
}

#[test]
fn youtube_is_h264_high_mp4_with_closed_two_second_gops() {
    let plan = build(&opts(false, true));
    assert_eq!(plan.codec, Codec::H264);
    assert!(plan.closed_gop && plan.faststart);
    assert_eq!(plan.gop_seconds, 2);
    assert_eq!(plan.container_extension, "mp4");
    assert!(!build(&opts(false, false)).closed_gop);
    let hdr = build(&opts(true, true));
    assert_eq!(hdr.codec, Codec::Hevc);
    assert_eq!(hdr.color.transfer, "arib-std-b67");
}

#[test]
fn advanced_overrides_codec_frame_rate_bitrates_and_container() {
    let mut o = opts(false, false);
    o.advanced = Advanced {
        codec: Some(Codec::Hevc),
        frame_rate: Some(FrameRate::fps_60()),
        video_bitrate_kbps: Some(7_000),
        audio_bitrate_kbps: Some(160),
        container: Container::Mov,
    };
    let plan = build(&o);
    assert_eq!(plan.codec, Codec::Hevc);
    assert_eq!(plan.pixel_format, PixelFormat::Yuv420p);
    assert_eq!(plan.color.transfer, "bt709");
    assert_eq!(plan.frame_rate, FrameRate::fps_60());
    assert_eq!(plan.video_bitrate_kbps, 7_000);
    assert_eq!(plan.audio_bitrate_kbps, 160);
    assert_eq!(plan.container_extension, "mov");
}

#[test]
fn hdr_and_youtube_win_over_conflicting_advanced_choices() {
    let mut o = opts(true, true);
    o.advanced.codec = Some(Codec::H264);
    o.advanced.container = Container::Mov;
    let plan = build(&o);
    assert_eq!(plan.codec, Codec::Hevc);
    assert_eq!(plan.container_extension, "mp4");
}

#[test]
fn advanced_frame_rate_drives_the_high_fps_ladder() {
    let mut o = opts(false, false);
    let base = build(&o).video_bitrate_kbps;
    o.advanced.frame_rate = Some(FrameRate::fps_50());
    assert!(build(&o).video_bitrate_kbps > base);
}

#[test]
fn sdr_defaults_are_h264_8bit_bt709() {
    let plan = EncodePlan::build(&opts(false, false), Aspect::Landscape16x9, FrameRate::fps_30());
    assert_eq!((plan.width, plan.height), (1920, 1080));
    assert_eq!(plan.codec, Codec::H264);
    assert_eq!(plan.pixel_format, PixelFormat::Yuv420p);
    assert_eq!(plan.color.transfer, "bt709");
    assert_eq!(plan.container_extension, "mp4");
    assert!(plan.faststart);
}

#[test]
fn hdr_means_hevc_10bit_hlg_bt2020() {
    let plan = EncodePlan::build(&opts(true, false), Aspect::Landscape16x9, FrameRate::fps_30());
    assert_eq!(plan.codec, Codec::Hevc);
    assert_eq!(plan.pixel_format, PixelFormat::Yuv420p10le);
    assert_eq!(plan.color.primaries, "bt2020");
    assert_eq!(plan.color.transfer, "arib-std-b67");
    assert_eq!(plan.color.matrix, "bt2020nc");
}

#[test]
fn youtube_raises_audio_bitrate() {
    assert_eq!(
        EncodePlan::build(&opts(false, true), Aspect::Landscape16x9, FrameRate::fps_30())
            .audio_bitrate_kbps,
        384
    );
    assert_eq!(
        EncodePlan::build(&opts(false, false), Aspect::Landscape16x9, FrameRate::fps_30())
            .audio_bitrate_kbps,
        256
    );
}

#[test]
fn bitrate_ladder_is_monotonic() {
    for res in [Resolution::FullHd, Resolution::Uhd4k] {
        let mut last = 0;
        for q in [Quality::Good, Quality::Better, Quality::Best] {
            let o = ExportOptions { resolution: res, quality: q, ..ExportOptions::default() };
            let b = EncodePlan::build(&o, Aspect::Landscape16x9, FrameRate::fps_30())
                .video_bitrate_kbps;
            assert!(b > last, "{res:?} {q:?}: {b} <= {last}");
            last = b;
        }
    }
    let fhd = EncodePlan::build(&opts(false, false), Aspect::Landscape16x9, FrameRate::fps_30())
        .video_bitrate_kbps;
    let uhd = EncodePlan::build(
        &ExportOptions { resolution: Resolution::Uhd4k, ..opts(false, false) },
        Aspect::Landscape16x9,
        FrameRate::fps_30(),
    )
    .video_bitrate_kbps;
    assert!(uhd > fhd);
}

#[test]
fn high_frame_rate_and_hevc_adjust_bitrate() {
    let base = EncodePlan::build(&opts(false, false), Aspect::Landscape16x9, FrameRate::fps_30())
        .video_bitrate_kbps;
    let sixty = EncodePlan::build(&opts(false, false), Aspect::Landscape16x9, FrameRate::fps_60())
        .video_bitrate_kbps;
    let hdr = EncodePlan::build(&opts(true, false), Aspect::Landscape16x9, FrameRate::fps_30())
        .video_bitrate_kbps;
    assert!(sixty > base);
    assert!(hdr < base);
}

#[test]
fn portrait_swaps_dimensions() {
    let plan = EncodePlan::build(&opts(false, false), Aspect::Portrait9x16, FrameRate::fps_30());
    assert_eq!((plan.width, plan.height), (1080, 1920));
}

#[test]
fn full_hd_better_thirty_is_the_base_of_the_ladder() {
    let plan = build(&opts(false, false));
    assert_eq!(plan.video_bitrate_kbps, 12_000);
    assert_eq!(plan.gop_seconds, 2);
    assert_eq!(plan.frame_rate, FrameRate::fps_30());
}
