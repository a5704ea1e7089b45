//! What the user chooses in the export dialog.

use vstd::prelude::*;

use crate::plan::Codec;
use crate::settings::Resolution;
use crate::time::FrameRate;

verus! {

/// Quality tier, mapped to a bitrate ladder by the planner.
#[derive(Copy, Clone, Debug, PartialEq, Eq, Hash, Structural)]
pub enum Quality {
    Good,
    Better,
    Best,
}

impl Default for Quality {
    fn default() -> (q: Quality)
        ensures
            q == Quality::Better,
    {
        Quality::Better
    }
}

/// File format of the output.
#[derive(Copy, Clone, Debug, PartialEq, Eq, Hash, Structural)]
pub enum Container {
    Mp4,
    /// QuickTime; same streams, preferred by Final Cut and some Mac tools.
    Mov,
}

impl Default for Container {
    fn default() -> (c: Container)
        ensures
            c == Container::Mp4,
    {
        Container::Mp4
    }
}

pub open spec fn container_extension(c: Container) -> Seq<char> {
    match c {
        Container::Mp4 => "mp4"@,
        Container::Mov => "mov"@,
    }
}

impl Container {
    pub fn extension(self) -> (e: &'static str)
        ensures
            e@ == container_extension(self),
    {
        proof {
            reveal_strlit("mp4");
            reveal_strlit("mov");
        }
        match self {
            Container::Mp4 => "mp4",
            Container::Mov => "mov",
        }
    }
}

/// Overrides under the dialog's "Advanced" disclosure. `None` means
/// "automatic": derived from the main options and the project.
#[derive(Clone, Debug, PartialEq, Eq)]
pub struct Advanced {
    /// Ignored for HDR, which is always HEVC.
    pub codec: Option<Codec>,
    /// Defaults to the project's frame rate.
    pub frame_rate: Option<FrameRate>,
    /// Replaces the quality ladder.
    pub video_bitrate_kbps: Option<u32>,
    pub audio_bitrate_kbps: Option<u32>,
    /// Ignored with "Optimise for YouTube", which is always MP4.
    pub container: Container,
}

impl Default for Advanced {
    fn default() -> (a: Advanced)
        ensures
            a.codec is None,
            a.frame_rate is None,
            a.video_bitrate_kbps is None,
            a.audio_bitrate_kbps is None,
            a.container == Container::Mp4,
    {
        Advanced {
            codec: None,
            frame_rate: None,
            video_bitrate_kbps: None,
            audio_bitrate_kbps: None,
            container: Container::Mp4,
        }
    }
}

/// Options as shown in the export dialog.
#[derive(Clone, Debug, PartialEq, Eq)]
pub struct ExportOptions {
    pub resolution: Resolution,
    pub quality: Quality,
    /// Opt-in. Only meaningful if the timeline has HDR sources.
    pub hdr: bool,
    /// Applies YouTube's recommended container and codec settings.
    pub optimize_for_youtube: bool,
    pub advanced: Advanced,
}

impl Default for ExportOptions {
    fn default() -> (o: ExportOptions)
        ensures
            o.resolution == Resolution::FullHd,
            o.quality == Quality::Better,
            !o.hdr,
            !o.optimize_for_youtube,
            o.advanced.codec is None,
            o.advanced.frame_rate is None,
            o.advanced.video_bitrate_kbps is None,
            o.advanced.audio_bitrate_kbps is None,
            o.advanced.container == Container::Mp4,
    {
        ExportOptions {
            resolution: Resolution::FullHd,
            quality: Quality::Better,
            hdr: false,
            optimize_for_youtube: false,
            advanced: Advanced::default(),
        }
    }
}

} // verus!
