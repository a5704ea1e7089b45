//! Checking a finished export against its plan: what probing the file
//! found, and every way it differs from what was asked for.

use vstd::prelude::*;

use crate::plan::{Codec, EncodePlan};
use crate::strs::text_eq;
use crate::time::{fits_i64, Ticks, FLICKS_PER_SECOND};

verus! {

/// Transfer characteristics a video is tagged with.
#[derive(Copy, Clone, Debug, PartialEq, Eq, Structural)]
pub enum ColorTransfer {
    Sdr,
    Hlg,
}

/// What probing an exported file found.
#[derive(Clone, Debug, PartialEq, Eq)]
pub struct ProbedVideo {
    /// Codec name as ffprobe reports it (`h264`, `hevc`, ...).
    pub codec: String,
    pub width: Option<u32>,
    pub height: Option<u32>,
    pub duration: Option<Ticks>,
    pub transfer: ColorTransfer,
    pub has_audio: bool,
}

/// One way the output differs from the plan.
#[derive(Clone, Debug, PartialEq, Eq)]
pub enum Mismatch {
    /// The file cannot be opened.
    Unreadable(String),
    Codec { got: String, want: &'static str },
    Size { got_w: u32, got_h: u32, want_w: u32, want_h: u32 },
    Duration { got: Ticks, want: Ticks },
    Transfer { got: ColorTransfer, want: ColorTransfer },
    /// The audio track is missing.
    NoAudio,
}

/// Codec name a plan's codec is reported under.
pub open spec fn codec_name(c: Codec) -> &'static str {
    match c {
        Codec::H264 => "h264",
        Codec::Hevc => "hevc",
    }
}

/// Slack allowed on the length: two frames, at least a tenth of a second
/// (containers round to their timescale and AAC adds priming).
pub open spec fn length_slack(fd: int) -> int {
    if 2 * fd >= FLICKS_PER_SECOND / 10 {
        2 * fd
    } else {
        FLICKS_PER_SECOND / 10
    }
}

pub open spec fn abs_int(x: int) -> int {
    if x < 0 {
        -x
    } else {
        x
    }
}

/// Every difference between the probed file and the plan for `frames`
/// frames (and a sound track if `audio`), in this order: codec, picture
/// size, length, colour transfer, audio.
pub open spec fn mismatches(plan: EncodePlan, frames: int, audio: bool, info: ProbedVideo) -> Seq<Mismatch> {
    let want_codec = codec_name(plan.codec);
    let s0 = if info.codec@ != want_codec@ {
        seq![Mismatch::Codec { got: info.codec, want: want_codec }]
    } else {
        Seq::empty()
    };
    let got_w: u32 = match info.width {
        Some(w) => w,
        None => 0,
    };
    let got_h: u32 = match info.height {
        Some(h) => h,
        None => 0,
    };
    let s1 = if got_w != plan.width || got_h != plan.height {
        s0.push(Mismatch::Size { got_w, got_h, want_w: plan.width, want_h: plan.height })
    } else {
        s0
    };
    let fd = plan.frame_rate.spec_frame_duration();
    let want = frames * fd;
    let got: int = match info.duration {
        Some(d) => d.0 as int,
        None => 0,
    };
    let s2 = if abs_int(got - want) > length_slack(fd) {
        s1.push(Mismatch::Duration { got: Ticks(got as i64), want: Ticks(want as i64) })
    } else {
        s1
    };
    let want_transfer = if plan.color.transfer@ == "arib-std-b67"@ {
        ColorTransfer::Hlg
    } else {
        ColorTransfer::Sdr
    };
    let s3 = if info.transfer != want_transfer {
        s2.push(Mismatch::Transfer { got: info.transfer, want: want_transfer })
    } else {
        s2
    };
    if audio && !info.has_audio {
        s3.push(Mismatch::NoAudio)
    } else {
        s3
    }
}

/// Compares probed `info` with what `plan` asked for. `frames` is the
/// number of frames sent, `audio` whether a mix was muxed in. Empty means
/// all good.
pub fn compare(plan: &EncodePlan, frames: u64, audio: bool, info: &ProbedVideo) -> (v: Vec<Mismatch>)
    requires
        fits_i64(frames * plan.frame_rate.spec_frame_duration()),
    ensures
        v@ == mismatches(*plan, frames as int, audio, *info),
{
    let mut out: Vec<Mismatch> = Vec::new();
    let want_codec: &'static str = match plan.codec {
        Codec::H264 => "h264",
        Codec::Hevc => "hevc",
    };
    if !text_eq(info.codec.as_str(), want_codec) {
        out.push(Mismatch::Codec { got: info.codec.clone(), want: want_codec });
    }
    let got_w: u32 = match info.width {
        Some(w) => w,
        None => 0,
    };
    let got_h: u32 = match info.height {
        Some(h) => h,
        None => 0,
    };
    if got_w != plan.width || got_h != plan.height {
        out.push(Mismatch::Size { got_w, got_h, want_w: plan.width, want_h: plan.height });
    }
    let fd = plan.frame_rate.frame_duration();
    proof {
        assert(frames <= i64::MAX) by {
            assert(frames * fd.0 >= frames) by (nonlinear_arith)
                requires
                    fd.0 > 0,
            ;
        }
    }
    let want = Ticks::from_frames(frames as i64, plan.frame_rate);
    let got: i64 = match info.duration {
        Some(d) => d.0,
        None => 0,
    };
    let slack: i128 = if 2 * (fd.0 as i128) >= (FLICKS_PER_SECOND / 10) as i128 {
        2 * (fd.0 as i128)
    } else {
        (FLICKS_PER_SECOND / 10) as i128
    };
    let diff: i128 = got as i128 - want.0 as i128;
    let off: i128 = if diff < 0 {
        -diff
    } else {
        diff
    };
    if off > slack {
        out.push(Mismatch::Duration { got: Ticks(got), want });
    }
    let hlg = text_eq(plan.color.transfer, "arib-std-b67");
    let want_transfer = if hlg {
        ColorTransfer::Hlg
    } else {
        ColorTransfer::Sdr
    };
    if info.transfer != want_transfer {
        out.push(Mismatch::Transfer { got: info.transfer, want: want_transfer });
    }
    if audio && !info.has_audio {
        out.push(Mismatch::NoAudio);
    }
    proof {
        reveal_strlit("h264");
        reveal_strlit("hevc");
        reveal_strlit("arib-std-b67");
        assert(out@ =~= mismatches(*plan, frames as int, audio, *info));
    }
    out
}

} // verus!
