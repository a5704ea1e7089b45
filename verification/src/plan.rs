//! Translating export options into concrete encoder settings.

use vstd::prelude::*;

use crate::options::{container_extension, Container, ExportOptions, Quality};
use crate::settings::{spec_dimensions, Aspect, Resolution};
use crate::time::FrameRate;

verus! {

#[derive(Copy, Clone, Debug, PartialEq, Eq, Hash, Structural)]
pub enum Codec {
    H264,
    Hevc,
}

#[derive(Copy, Clone, Debug, PartialEq, Eq, Hash, Structural)]
pub enum PixelFormat {
    /// 8-bit 4:2:0.
    Yuv420p,
    /// 10-bit 4:2:0.
    Yuv420p10le,
}

/// Colour signalling written into the output stream.
#[derive(Clone, Debug, PartialEq, Eq)]
pub struct ColorTags {
    pub primaries: &'static str,
    pub transfer: &'static str,
    pub matrix: &'static str,
}

/// Fully resolved encoding parameters, independent of which ffmpeg encoder
/// ends up executing them.
#[derive(Clone, Debug, PartialEq, Eq)]
pub struct EncodePlan {
    pub width: u32,
    pub height: u32,
    pub frame_rate: FrameRate,
    pub codec: Codec,
    pub pixel_format: PixelFormat,
    pub color: ColorTags,
    pub video_bitrate_kbps: u32,
    pub audio_bitrate_kbps: u32,
    pub faststart: bool,
    /// Keyframe interval in seconds.
    pub gop_seconds: u32,
    /// Every GOP decodable on its own (YouTube's recommendation).
    pub closed_gop: bool,
    pub container_extension: &'static str,
}

/// The quality ladder's base bitrate in kbit/s, loosely following
/// YouTube's upload guidance.
pub open spec fn ladder_base(resolution: Resolution, quality: Quality) -> int {
    match (resolution, quality) {
        (Resolution::FullHd, Quality::Good) => 8_000,
        (Resolution::FullHd, Quality::Better) => 12_000,
        (Resolution::FullHd, Quality::Best) => 20_000,
        (Resolution::Uhd4k, Quality::Good) => 35_000,
        (Resolution::Uhd4k, Quality::Better) => 50_000,
        (Resolution::Uhd4k, Quality::Best) => 80_000,
    }
}

/// Bitrate in kbit/s: half as much again above 40 fps, and two thirds of
/// it for HEVC, which reaches similar quality with fewer bits.
pub open spec fn ladder_bitrate(resolution: Resolution, quality: Quality, codec: Codec, high_fps: bool) -> int {
    let base = ladder_base(resolution, quality);
    let base = if high_fps { base * 3 / 2 } else { base };
    match codec {
        Codec::H264 => base,
        Codec::Hevc => base * 2 / 3,
    }
}

/// Whether a frame rate counts as high (above 40 fps).
pub open spec fn high_rate(fps: FrameRate) -> bool {
    fps.spec_num() > 40 * fps.spec_den()
}

/// The codec a plan uses: HEVC for HDR whatever Advanced says, otherwise
/// Advanced's choice or H.264.
pub open spec fn plan_codec(options: ExportOptions) -> Codec {
    if options.hdr {
        Codec::Hevc
    } else {
        match options.advanced.codec {
            Some(c) => c,
            None => Codec::H264,
        }
    }
}

pub open spec fn plan_rate(options: ExportOptions, fps: FrameRate) -> FrameRate {
    match options.advanced.frame_rate {
        Some(r) => r,
        None => fps,
    }
}

fn bitrate_kbps(resolution: Resolution, quality: Quality, codec: Codec, high_fps: bool) -> (b: u32)
    ensures
        b == ladder_bitrate(resolution, quality, codec, high_fps),
{
    let base: u32 = match (resolution, quality) {
        (Resolution::FullHd, Quality::Good) => 8_000,
        (Resolution::FullHd, Quality::Better) => 12_000,
        (Resolution::FullHd, Quality::Best) => 20_000,
        (Resolution::Uhd4k, Quality::Good) => 35_000,
        (Resolution::Uhd4k, Quality::Better) => 50_000,
        (Resolution::Uhd4k, Quality::Best) => 80_000,
    };
    let base: u32 = if high_fps { base * 3 / 2 } else { base };
    match codec {
        Codec::H264 => base,
        Codec::Hevc => base * 2 / 3,
    }
}

impl EncodePlan {
    /// Builds the plan for `options` on a project with `aspect` and `fps`
    /// (the project's frame rate; Advanced may override it).
    pub fn build(options: &ExportOptions, aspect: Aspect, fps: FrameRate) -> (plan: EncodePlan)
        ensures
            (plan.width, plan.height) == spec_dimensions(options.resolution, aspect),
            plan.frame_rate == plan_rate(*options, fps),
            plan.codec == plan_codec(*options),
            plan.pixel_format == (if options.hdr { PixelFormat::Yuv420p10le } else { PixelFormat::Yuv420p }),
            plan.color.primaries@ == (if options.hdr { "bt2020"@ } else { "bt709"@ }),
            plan.color.transfer@ == (if options.hdr { "arib-std-b67"@ } else { "bt709"@ }),
            plan.color.matrix@ == (if options.hdr { "bt2020nc"@ } else { "bt709"@ }),
            plan.video_bitrate_kbps == (match options.advanced.video_bitrate_kbps {
                Some(b) => b as int,
                None => ladder_bitrate(
                    options.resolution,
                    options.quality,
                    plan_codec(*options),
                    high_rate(plan_rate(*options, fps)),
                ),
            }),
            plan.audio_bitrate_kbps == (match options.advanced.audio_bitrate_kbps {
                Some(b) => b,
                None => if options.optimize_for_youtube { 384u32 } else { 256u32 },
            }),
            plan.faststart,
            plan.gop_seconds == 2,
            plan.closed_gop == options.optimize_for_youtube,
            plan.container_extension@ == (if options.optimize_for_youtube {
                "mp4"@
            } else {
                container_extension(options.advanced.container)
            }),
    {
        proof {
            reveal_strlit("bt2020");
            reveal_strlit("arib-std-b67");
            reveal_strlit("bt2020nc");
            reveal_strlit("bt709");
            reveal_strlit("mp4");
        }
        let advanced = &options.advanced;
        let (width, height) = options.resolution.dimensions(aspect);
        let fps = match advanced.frame_rate {
            Some(r) => r,
            None => fps,
        };
        // HDR is HEVC Main10 whatever Advanced says; YouTube SDR is H.264
        // High unless Advanced picks HEVC explicitly.
        let codec = if options.hdr {
            Codec::Hevc
        } else {
            match advanced.codec {
                Some(c) => c,
                None => Codec::H264,
            }
        };
        let pixel_format = if options.hdr {
            PixelFormat::Yuv420p10le
        } else {
            PixelFormat::Yuv420p
        };
        let color = if options.hdr {
            ColorTags { primaries: "bt2020", transfer: "arib-std-b67", matrix: "bt2020nc" }
        } else {
            ColorTags { primaries: "bt709", transfer: "bt709", matrix: "bt709" }
        };
        let high_fps = fps.is_high();
        let video_bitrate_kbps = match advanced.video_bitrate_kbps {
            Some(b) => b,
            None => bitrate_kbps(options.resolution, options.quality, codec, high_fps),
        };
        let youtube = options.optimize_for_youtube;
        let audio_bitrate_kbps = match advanced.audio_bitrate_kbps {
            Some(b) => b,
            None => if youtube { 384 } else { 256 },
        };
        let container_extension = if youtube {
            Container::Mp4.extension()
        } else {
            advanced.container.extension()
        };
        EncodePlan {
            width,
            height,
            frame_rate: fps,
            codec,
            pixel_format,
            color,
            video_bitrate_kbps,
            audio_bitrate_kbps,
            faststart: true,
            gop_seconds: 2,
            closed_gop: youtube,
            container_extension,
        }
    }
}

/// The ladder grows with quality and resolution, and drops for HEVC.
pub proof fn law_bitrate_ladder_is_monotonic(resolution: Resolution, codec: Codec, high_fps: bool)
    ensures
        ladder_bitrate(resolution, Quality::Good, codec, high_fps) < ladder_bitrate(resolution, Quality::Better, codec, high_fps),
        ladder_bitrate(resolution, Quality::Better, codec, high_fps) < ladder_bitrate(resolution, Quality::Best, codec, high_fps),
        ladder_bitrate(Resolution::FullHd, Quality::Best, codec, high_fps) < ladder_bitrate(Resolution::Uhd4k, Quality::Good, codec, high_fps),
        ladder_bitrate(resolution, Quality::Good, codec, false) < ladder_bitrate(resolution, Quality::Good, codec, true),
        ladder_bitrate(resolution, Quality::Best, Codec::Hevc, high_fps) < ladder_bitrate(resolution, Quality::Best, Codec::H264, high_fps),
{
}

} // verus!
