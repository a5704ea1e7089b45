//! Building the ffmpeg command line for an [`EncodePlan`].

use vstd::prelude::*;

use crate::digits::{decimal, push_decimal, push_str};
use crate::encoders::Encoder;
use crate::plan::{Codec, EncodePlan, PixelFormat};
use crate::strs::{push_string, push_text, starts_with_text, text_eq, texts};
use crate::time::FrameRate;

verus! {

pub open spec fn pix_fmt_name(f: PixelFormat) -> Seq<char> {
    match f {
        PixelFormat::Yuv420p => "yuv420p"@,
        PixelFormat::Yuv420p10le => "yuv420p10le"@,
    }
}

/// What the encoder is fed: hardware encoders take the semi-planar
/// layouts their drivers use (NV12 / P010), software ones planar YUV.
pub open spec fn output_pix_fmt_name(hardware: bool, f: PixelFormat) -> Seq<char> {
    if hardware {
        match f {
            PixelFormat::Yuv420p => "nv12"@,
            PixelFormat::Yuv420p10le => "p010le"@,
        }
    } else {
        pix_fmt_name(f)
    }
}

pub open spec fn fps_text(r: FrameRate) -> Seq<char> {
    decimal(r.spec_num() as nat) + "/"@ + decimal(r.spec_den() as nat)
}

pub open spec fn kbps_text(n: nat) -> Seq<char> {
    decimal(n) + "k"@
}

/// Frames per GOP: the GOP length in seconds times the frame rate,
/// rounded half away from zero, at least one (and at most `u32::MAX`).
pub open spec fn gop_frames_spec(rate: FrameRate, seconds: u32) -> nat {
    let q = (2 * rate.spec_num() * seconds + rate.spec_den()) / (2 * rate.spec_den());
    let q = if q > u32::MAX { u32::MAX as int } else { q };
    if q < 1 {
        1
    } else {
        q as nat
    }
}

/// `-profile:v` for the GPU encoders: High for H.264, Main10 for 10-bit
/// HEVC.
pub open spec fn profile_args(f: PixelFormat, name: Seq<char>) -> Seq<Seq<char>> {
    if name.len() >= 4 && name.subrange(0, 4) == "h264"@ {
        seq!["-profile:v"@, "high"@]
    } else if f == PixelFormat::Yuv420p10le {
        seq!["-profile:v"@, "main10"@]
    } else {
        seq!["-profile:v"@, "main"@]
    }
}

pub open spec fn main10_args(f: PixelFormat) -> Seq<Seq<char>> {
    if f == PixelFormat::Yuv420p10le {
        seq!["-profile:v"@, "main10"@]
    } else {
        Seq::empty()
    }
}

/// Options particular to one encoder.
pub open spec fn encoder_specific_args(f: PixelFormat, name: Seq<char>) -> Seq<Seq<char>> {
    if name == "libx264"@ {
        seq!["-preset"@, "medium"@, "-profile:v"@, "high"@]
    } else if name == "libx265"@ {
        seq!["-preset"@, "medium"@] + main10_args(f) + seq!["-x265-params"@, "log-level=error"@]
    } else if name == "h264_videotoolbox"@ {
        seq!["-profile:v"@, "high"@, "-allow_sw"@, "1"@]
    } else if name == "hevc_videotoolbox"@ {
        seq!["-allow_sw"@, "1"@] + main10_args(f)
    } else if name == "h264_nvenc"@ || name == "hevc_nvenc"@ {
        seq!["-preset"@, "p5"@, "-tune"@, "hq"@, "-rc"@, "vbr"@] + profile_args(f, name)
    } else if name == "h264_qsv"@ || name == "hevc_qsv"@ {
        seq!["-preset"@, "medium"@] + profile_args(f, name)
    } else if name == "h264_amf"@ || name == "hevc_amf"@ {
        seq!["-quality"@, "balanced"@, "-rc"@, "vbr_peak"@] + profile_args(f, name)
    } else if name == "h264_mf"@ || name == "hevc_mf"@ {
        seq!["-rate_control"@, "pc_vbr"@]
    } else {
        Seq::empty()
    }
}

/// The raw frames on stdin, in the plan's own format.
pub open spec fn input_args(plan: EncodePlan) -> Seq<Seq<char>> {
    seq![
        "-hide_banner"@, "-nostdin"@, "-loglevel"@, "error"@, "-nostats"@, "-y"@,
        "-f"@, "rawvideo"@, "-pix_fmt"@, pix_fmt_name(plan.pixel_format),
        "-s"@, decimal(plan.width as nat) + "x"@ + decimal(plan.height as nat),
        "-r"@, fps_text(plan.frame_rate),
        "-color_range"@, "tv"@, "-colorspace"@, plan.color.matrix@,
        "-color_primaries"@, plan.color.primaries@, "-color_trc"@, plan.color.transfer@,
        "-i"@, "pipe:0"@,
    ]
}

pub open spec fn audio_args(plan: EncodePlan, audio: Option<Seq<char>>) -> Seq<Seq<char>> {
    match audio {
        Some(wav) => seq![
            "-i"@, wav, "-map"@, "0:v:0"@, "-map"@, "1:a:0"@, "-c:a"@, "aac"@,
            "-b:a"@, kbps_text(plan.audio_bitrate_kbps as nat), "-ar"@, "48000"@, "-shortest"@,
        ],
        None => seq!["-an"@],
    }
}

pub open spec fn video_args(plan: EncodePlan, encoder: Encoder) -> Seq<Seq<char>> {
    let v = plan.video_bitrate_kbps as nat;
    seq![
        "-c:v"@, encoder.name@, "-pix_fmt"@, output_pix_fmt_name(encoder.hardware, plan.pixel_format),
        "-b:v"@, kbps_text(v), "-maxrate"@, kbps_text(v * 3 / 2), "-bufsize"@, kbps_text(v * 2),
        "-g"@, decimal(gop_frames_spec(plan.frame_rate, plan.gop_seconds)),
        "-r"@, fps_text(plan.frame_rate),
        "-color_range"@, "tv"@, "-colorspace"@, plan.color.matrix@,
        "-color_primaries"@, plan.color.primaries@, "-color_trc"@, plan.color.transfer@,
    ]
}

/// Position of the first `x` in `a`, searching from `from`.
pub open spec fn first_index(a: Seq<Seq<char>>, x: Seq<char>, from: int) -> Option<int>
    decreases a.len() - from,
{
    if from < 0 || from >= a.len() {
        None
    } else if a[from] == x {
        Some(from)
    } else {
        first_index(a, x, from + 1)
    }
}

/// x265 ignores `+cgop`: its own switch is added to its parameters.
pub open spec fn x265_closed(a: Seq<Seq<char>>) -> Seq<Seq<char>> {
    match first_index(a, "-x265-params"@, 0) {
        Some(i) => if i + 1 < a.len() {
            a.update(i + 1, a[i + 1] + ":open-gop=0"@)
        } else {
            a
        },
        None => a,
    }
}

/// The full argument list for streaming raw frames on stdin into an
/// encoded file at `output`.
pub open spec fn build_args(plan: EncodePlan, encoder: Encoder, output: Seq<char>, audio: Option<Seq<char>>) -> Seq<Seq<char>> {
    let a = input_args(plan) + audio_args(plan, audio) + video_args(plan, encoder)
        + encoder_specific_args(plan.pixel_format, encoder.name@);
    let a = if plan.closed_gop {
        let b = a + seq!["-bf"@, "2"@, "-flags"@, "+cgop"@];
        if encoder.name@ == "libx265"@ {
            x265_closed(b)
        } else {
            b
        }
    } else {
        a
    };
    let a = if plan.faststart { a + seq!["-movflags"@, "+faststart"@] } else { a };
    let a = if plan.codec == Codec::Hevc { a + seq!["-tag:v"@, "hvc1"@] } else { a };
    a + seq!["-progress"@, "pipe:1"@, output]
}

/// A test encode: three frames of a generated picture into the null
/// muxer, with the options a real export would use.
pub open spec fn probe_args(encoder: Encoder, format: PixelFormat) -> Seq<Seq<char>> {
    seq![
        "-hide_banner"@, "-nostdin"@, "-loglevel"@, "error"@, "-f"@, "lavfi"@,
        "-i"@, "color=c=gray:s=256x144:r=30:d=0.1"@, "-frames:v"@, "3"@, "-c:v"@,
        encoder.name@, "-pix_fmt"@, output_pix_fmt_name(encoder.hardware, format),
        "-b:v"@, kbps_text(1000),
    ] + encoder_specific_args(format, encoder.name@) + seq!["-f"@, "null"@, "-"@]
}

fn pix_fmt(format: PixelFormat) -> (s: &'static str)
    ensures
        s@ == pix_fmt_name(format),
{
    match format {
        PixelFormat::Yuv420p => "yuv420p",
        PixelFormat::Yuv420p10le => "yuv420p10le",
    }
}

/// What the encoder is fed (see `output_pix_fmt_name`).
pub fn output_pix_fmt(encoder: &Encoder, format: PixelFormat) -> (s: &'static str)
    ensures
        s@ == output_pix_fmt_name(encoder.hardware, format),
{
    if encoder.hardware {
        match format {
            PixelFormat::Yuv420p => "nv12",
            PixelFormat::Yuv420p10le => "p010le",
        }
    } else {
        pix_fmt(format)
    }
}

fn decimal_string(n: u64) -> (s: String)
    ensures
        s@ == decimal(n as nat),
{
    let mut s = String::new();
    push_decimal(&mut s, n);
    proof {
        assert(s@ =~= decimal(n as nat));
    }
    s
}

fn kbps(n: u64) -> (s: String)
    ensures
        s@ == kbps_text(n as nat),
{
    let mut s = decimal_string(n);
    push_str(&mut s, "k");
    s
}

fn fps(r: FrameRate) -> (s: String)
    ensures
        s@ == fps_text(r),
{
    let mut s = decimal_string(r.numerator() as u64);
    push_str(&mut s, "/");
    push_decimal(&mut s, r.denominator() as u64);
    s
}

/// Frames per GOP (see `gop_frames_spec`).
pub fn gop_frames(plan: &EncodePlan) -> (g: u32)
    ensures
        g == gop_frames_spec(plan.frame_rate, plan.gop_seconds),
{
    let num = plan.frame_rate.numerator() as u128;
    let den = plan.frame_rate.denominator() as u128;
    proof {
        assert(2 * num * (plan.gop_seconds as u128) <= 2 * 0xffff_ffffu128 * 0xffff_ffffu128) by (nonlinear_arith)
            requires
                num <= 0xffff_ffff,
                plan.gop_seconds <= 0xffff_ffff,
        ;
    }
    let q = (2 * num * (plan.gop_seconds as u128) + den) / (2 * den);
    let q: u32 = if q > u32::MAX as u128 { u32::MAX } else { q as u32 };
    if q < 1 {
        1
    } else {
        q
    }
}

fn push_profile(v: &mut Vec<String>, format: PixelFormat, name: &str)
    ensures
        texts(final(v)@) == texts(old(v)@) + profile_args(format, name@),
{
    proof {
        reveal_strlit("h264");
    }
    push_text(v, "-profile:v");
    if starts_with_text(name, "h264") {
        push_text(v, "high");
    } else if format == PixelFormat::Yuv420p10le {
        push_text(v, "main10");
    } else {
        push_text(v, "main");
    }
    proof {
        assert(texts(v@) =~= texts(old(v)@) + profile_args(format, name@));
    }
}

fn push_main10(v: &mut Vec<String>, format: PixelFormat)
    ensures
        texts(final(v)@) == texts(old(v)@) + main10_args(format),
{
    if format == PixelFormat::Yuv420p10le {
        push_text(v, "-profile:v");
        push_text(v, "main10");
    }
    proof {
        assert(texts(v@) =~= texts(old(v)@) + main10_args(format));
    }
}

/// Appends the options particular to `name`.
fn push_encoder_specific(v: &mut Vec<String>, format: PixelFormat, name: &str)
    ensures
        texts(final(v)@) == texts(old(v)@) + encoder_specific_args(format, name@),
{
    let ghost start = texts(v@);
    if text_eq(name, "libx264") {
        push_text(v, "-preset");
        push_text(v, "medium");
        push_text(v, "-profile:v");
        push_text(v, "high");
    } else if text_eq(name, "libx265") {
        push_text(v, "-preset");
        push_text(v, "medium");
        push_main10(v, format);
        push_text(v, "-x265-params");
        push_text(v, "log-level=error");
    } else if text_eq(name, "h264_videotoolbox") {
        push_text(v, "-profile:v");
        push_text(v, "high");
        push_text(v, "-allow_sw");
        push_text(v, "1");
    } else if text_eq(name, "hevc_videotoolbox") {
        push_text(v, "-allow_sw");
        push_text(v, "1");
        push_main10(v, format);
    } else if text_eq(name, "h264_nvenc") || text_eq(name, "hevc_nvenc") {
        push_text(v, "-preset");
        push_text(v, "p5");
        push_text(v, "-tune");
        push_text(v, "hq");
        push_text(v, "-rc");
        push_text(v, "vbr");
        push_profile(v, format, name);
    } else if text_eq(name, "h264_qsv") || text_eq(name, "hevc_qsv") {
        push_text(v, "-preset");
        push_text(v, "medium");
        push_profile(v, format, name);
    } else if text_eq(name, "h264_amf") || text_eq(name, "hevc_amf") {
        push_text(v, "-quality");
        push_text(v, "balanced");
        push_text(v, "-rc");
        push_text(v, "vbr_peak");
        push_profile(v, format, name);
    } else if text_eq(name, "h264_mf") || text_eq(name, "hevc_mf") {
        push_text(v, "-rate_control");
        push_text(v, "pc_vbr");
    }
    proof {
        assert(texts(v@) =~= start + encoder_specific_args(format, name@));
    }
}

fn push_input(a: &mut Vec<String>, plan: &EncodePlan, rate: &String)
    requires
        rate@ == fps_text(plan.frame_rate),
    ensures
        texts(final(a)@) == texts(old(a)@) + input_args(*plan),
{
    let ghost start = texts(a@);
    push_text(a, "-hide_banner");
    push_text(a, "-nostdin");
    push_text(a, "-loglevel");
    push_text(a, "error");
    push_text(a, "-nostats");
    push_text(a, "-y");
    push_text(a, "-f");
    push_text(a, "rawvideo");
    push_text(a, "-pix_fmt");
    push_text(a, pix_fmt(plan.pixel_format));
    push_text(a, "-s");
    let mut size = decimal_string(plan.width as u64);
    push_str(&mut size, "x");
    push_decimal(&mut size, plan.height as u64);
    push_string(a, size);
    push_text(a, "-r");
    push_string(a, rate.clone());
    push_text(a, "-color_range");
    push_text(a, "tv");
    push_text(a, "-colorspace");
    push_text(a, plan.color.matrix);
    push_text(a, "-color_primaries");
    push_text(a, plan.color.primaries);
    push_text(a, "-color_trc");
    push_text(a, plan.color.transfer);
    push_text(a, "-i");
    push_text(a, "pipe:0");
    proof {
        assert(texts(a@) =~= start + input_args(*plan));
    }
}

fn push_audio(a: &mut Vec<String>, plan: &EncodePlan, audio: Option<&str>)
    ensures
        texts(final(a)@) == texts(old(a)@) + audio_args(*plan, match audio {
            Some(w) => Some(w@),
            None => None,
        }),
{
    let ghost start = texts(a@);
    match audio {
        Some(wav) => {
            push_text(a, "-i");
            push_text(a, wav);
            push_text(a, "-map");
            push_text(a, "0:v:0");
            push_text(a, "-map");
            push_text(a, "1:a:0");
            push_text(a, "-c:a");
            push_text(a, "aac");
            push_text(a, "-b:a");
            push_string(a, kbps(plan.audio_bitrate_kbps as u64));
            push_text(a, "-ar");
            push_text(a, "48000");
            push_text(a, "-shortest");
        },
        None => push_text(a, "-an"),
    }
    proof {
        assert(texts(a@) =~= start + audio_args(*plan, match audio {
            Some(w) => Some(w@),
            None => None,
        }));
    }
}

fn push_video(a: &mut Vec<String>, plan: &EncodePlan, encoder: &Encoder, rate: String)
    requires
        rate@ == fps_text(plan.frame_rate),
        plan.video_bitrate_kbps * 3 <= u32::MAX,
    ensures
        texts(final(a)@) == texts(old(a)@) + video_args(*plan, *encoder),
{
    let ghost start = texts(a@);
    let v = plan.video_bitrate_kbps as u64;
    push_text(a, "-c:v");
    push_text(a, encoder.name);
    push_text(a, "-pix_fmt");
    push_text(a, output_pix_fmt(encoder, plan.pixel_format));
    push_text(a, "-b:v");
    push_string(a, kbps(v));
    push_text(a, "-maxrate");
    push_string(a, kbps(v * 3 / 2));
    push_text(a, "-bufsize");
    push_string(a, kbps(v * 2));
    push_text(a, "-g");
    push_string(a, decimal_string(gop_frames(plan) as u64));
    push_text(a, "-r");
    push_string(a, rate);
    push_text(a, "-color_range");
    push_text(a, "tv");
    push_text(a, "-colorspace");
    push_text(a, plan.color.matrix);
    push_text(a, "-color_primaries");
    push_text(a, plan.color.primaries);
    push_text(a, "-color_trc");
    push_text(a, plan.color.transfer);
    proof {
        assert(texts(a@) =~= start + video_args(*plan, *encoder));
    }
}

/// Full argument list (without the program name) for streaming raw
/// `yuv420p` frames on stdin into an encoded file at `output`. `audio` is
/// an optional WAV with the mixed sound.
pub fn build(plan: &EncodePlan, encoder: &Encoder, output: &str, audio: Option<&str>) -> (a: Vec<String>)
    requires
        plan.video_bitrate_kbps * 3 <= u32::MAX,
    ensures
        texts(a@) == build_args(*plan, *encoder, output@, match audio {
            Some(w) => Some(w@),
            None => None,
        }),
{
    let rate = fps(plan.frame_rate);
    let mut a: Vec<String> = Vec::new();
    proof {
        assert(texts(a@) =~= Seq::<Seq<char>>::empty());
    }
    push_input(&mut a, plan, &rate);
    push_audio(&mut a, plan, audio);
    push_video(&mut a, plan, encoder, rate);
    push_encoder_specific(&mut a, plan.pixel_format, encoder.name);
    let ghost base = texts(a@);
    proof {
        assert(base =~= input_args(*plan) + audio_args(*plan, match audio {
            Some(w) => Some(w@),
            None => None,
        }) + video_args(*plan, *encoder) + encoder_specific_args(plan.pixel_format, encoder.name@));
    }
    if plan.closed_gop {
        // At most two consecutive B-frames, closed GOPs (YouTube).
        push_text(&mut a, "-bf");
        push_text(&mut a, "2");
        push_text(&mut a, "-flags");
        push_text(&mut a, "+cgop");
        proof {
            assert(texts(a@) =~= base + seq!["-bf"@, "2"@, "-flags"@, "+cgop"@]);
        }
        if text_eq(encoder.name, "libx265") {
            // x265 ignores +cgop; its own switch.
            close_x265(&mut a);
        }
    }
    let ghost closed = texts(a@);
    if plan.faststart {
        push_text(&mut a, "-movflags");
        push_text(&mut a, "+faststart");
    }
    proof {
        assert(texts(a@) =~= if plan.faststart { closed + seq!["-movflags"@, "+faststart"@] } else { closed });
    }
    let ghost fast = texts(a@);
    if plan.codec == Codec::Hevc {
        // Tag as hvc1 so QuickTime and iOS play it.
        push_text(&mut a, "-tag:v");
        push_text(&mut a, "hvc1");
    }
    proof {
        assert(texts(a@) =~= if plan.codec == Codec::Hevc { fast + seq!["-tag:v"@, "hvc1"@] } else { fast });
    }
    let ghost tagged = texts(a@);
    push_text(&mut a, "-progress");
    push_text(&mut a, "pipe:1");
    push_text(&mut a, output);
    proof {
        assert(texts(a@) =~= tagged + seq!["-progress"@, "pipe:1"@, output@]);
    }
    a
}

/// Appends `:open-gop=0` to the value after the first `-x265-params`.
fn close_x265(a: &mut Vec<String>)
    ensures
        texts(final(a)@) == x265_closed(texts(old(a)@)),
{
    let ghost t = texts(a@);
    let mut i: usize = 0;
    proof {
        reveal_strlit("-x265-params");
    }
    while i < a.len()
        invariant
            i <= a@.len(),
            t == texts(a@),
            t == texts(old(a)@),
            first_index(t, "-x265-params"@, 0) == first_index(t, "-x265-params"@, i as int),
        decreases a@.len() - i,
    {
        proof {
            assert(t[i as int] == a@[i as int]@);
        }
        if text_eq(a[i].as_str(), "-x265-params") {
            proof {
                assert(first_index(t, "-x265-params"@, i as int) == Some(i as int));
            }
            if i + 1 < a.len() {
                let mut s = a[i + 1].clone();
                push_str(&mut s, ":open-gop=0");
                let ghost s_view = s@;
                a.set(i + 1, s);
                proof {
                    assert(texts(a@) =~= t.update(i + 1, t[i + 1] + ":open-gop=0"@));
                }
            }
            return;
        }
        i = i + 1;
    }
}

/// A test encode for `encoder`: three frames of a generated picture into
/// the null muxer, with the options a real export would use. Hardware
/// encoders listed without a matching GPU fail here within a second.
pub fn probe(encoder: &Encoder, format: PixelFormat) -> (a: Vec<String>)
    ensures
        texts(a@) == probe_args(*encoder, format),
{
    let mut a: Vec<String> = Vec::new();
    push_text(&mut a, "-hide_banner");
    push_text(&mut a, "-nostdin");
    push_text(&mut a, "-loglevel");
    push_text(&mut a, "error");
    push_text(&mut a, "-f");
    push_text(&mut a, "lavfi");
    push_text(&mut a, "-i");
    push_text(&mut a, "color=c=gray:s=256x144:r=30:d=0.1");
    push_text(&mut a, "-frames:v");
    push_text(&mut a, "3");
    push_text(&mut a, "-c:v");
    push_text(&mut a, encoder.name);
    push_text(&mut a, "-pix_fmt");
    push_text(&mut a, output_pix_fmt(encoder, format));
    push_text(&mut a, "-b:v");
    push_string(&mut a, kbps(1000));
    let ghost head = texts(a@);
    push_encoder_specific(&mut a, format, encoder.name);
    push_text(&mut a, "-f");
    push_text(&mut a, "null");
    push_text(&mut a, "-");
    proof {
        assert(texts(a@) =~= probe_args(*encoder, format));
    }
    a
}

proof fn lemma_first_index_after(a: Seq<Seq<char>>, x: Seq<char>, from: int, len: int)
    requires
        0 <= from <= len <= a.len(),
        forall|j: int| from <= j < len ==> a[j] != x,
    ensures
        first_index(a, x, from) matches Some(i) ==> i >= len,
    decreases a.len() - from,
{
    if from < a.len() && a[from] != x {
        if from < len {
            lemma_first_index_after(a, x, from + 1, len);
        } else {
            lemma_first_index_after(a, x, from + 1, from + 1);
        }
    }
}

/// The sound goes in right after the frames: the arguments start with the
/// raw video input on stdin (`-i pipe:0`), then, with a WAV, its input
/// mapped as the audio track and encoded as AAC at the plan's bitrate up to
/// the shorter stream; without one, no audio (`-an`). (A video or audio
/// argument that is itself `-x265-params` would be rewritten by the x265
/// closed-GOP step; that input is left out.)
pub proof fn law_audio_input_is_mapped_and_encoded(plan: EncodePlan, encoder: Encoder, output: Seq<char>, audio: Option<Seq<char>>)
    requires
        !(input_args(plan) + audio_args(plan, audio)).contains("-x265-params"@),
    ensures
        ({
            let a = build_args(plan, encoder, output, audio);
            let head = input_args(plan) + audio_args(plan, audio);
            &&& a.subrange(0, head.len() as int) == head
            &&& input_args(plan).len() == 24
            &&& input_args(plan)[22] == "-i"@ && input_args(plan)[23] == "pipe:0"@
            &&& audio_args(plan, audio) == match audio {
                Some(wav) => seq![
                    "-i"@, wav, "-map"@, "0:v:0"@, "-map"@, "1:a:0"@, "-c:a"@, "aac"@,
                    "-b:a"@, kbps_text(plan.audio_bitrate_kbps as nat), "-ar"@, "48000"@, "-shortest"@,
                ],
                None => seq!["-an"@],
            }
        }),
{
    let head = input_args(plan) + audio_args(plan, audio);
    let l = head.len() as int;
    let a0 = head + video_args(plan, encoder) + encoder_specific_args(plan.pixel_format, encoder.name@);
    assert(a0.subrange(0, l) =~= head);
    let b = a0 + seq!["-bf"@, "2"@, "-flags"@, "+cgop"@];
    assert(b.subrange(0, l) =~= head);
    assert forall|j: int| 0 <= j < l implies b[j] != "-x265-params"@ by {
        assert(b[j] == head[j]);
        if b[j] == "-x265-params"@ {
            assert(head.contains(head[j]));
        }
    }
    lemma_first_index_after(b, "-x265-params"@, 0, l);
    let c = x265_closed(b);
    assert(c.subrange(0, l) =~= head);
    let a1 = if plan.closed_gop { if encoder.name@ == "libx265"@ { c } else { b } } else { a0 };
    assert(a1.subrange(0, l) =~= head);
    let a2 = if plan.faststart { a1 + seq!["-movflags"@, "+faststart"@] } else { a1 };
    assert(a2.subrange(0, l) =~= head);
    let a3 = if plan.codec == Codec::Hevc { a2 + seq!["-tag:v"@, "hvc1"@] } else { a2 };
    assert(a3.subrange(0, l) =~= head);
    let a4 = a3 + seq!["-progress"@, "pipe:1"@, output];
    assert(a4.subrange(0, l) =~= head);
}

/// Every HEVC export is tagged `hvc1` (so that QuickTime and iOS play it),
/// whatever its pixel format, encoder, audio or options; and the codec
/// changes nothing else: the HEVC command line is the H.264 one with the
/// pair `-tag:v hvc1` put before the closing progress and output
/// arguments, so an H.264 export carries no such tag of its own making.
pub proof fn law_hevc_is_tagged_hvc1(plan: EncodePlan, encoder: Encoder, output: Seq<char>, audio: Option<Seq<char>>)
    ensures
        plan.codec == Codec::Hevc ==> ({
            let a = build_args(plan, encoder, output, audio);
            exists|i: int| 0 <= i && i + 1 < a.len() && a[i] == "-tag:v"@ && #[trigger] a[i + 1] == "hvc1"@
        }),
        ({
            let h = build_args(EncodePlan { codec: Codec::Hevc, ..plan }, encoder, output, audio);
            let s = build_args(EncodePlan { codec: Codec::H264, ..plan }, encoder, output, audio);
            &&& s.len() >= 3
            &&& h == s.subrange(0, s.len() - 3) + seq!["-tag:v"@, "hvc1"@] + s.subrange(s.len() - 3, s.len() as int)
        }),
{
    let h = build_args(EncodePlan { codec: Codec::Hevc, ..plan }, encoder, output, audio);
    let s = build_args(EncodePlan { codec: Codec::H264, ..plan }, encoder, output, audio);
    assert(h =~= s.subrange(0, s.len() - 3) + seq!["-tag:v"@, "hvc1"@] + s.subrange(s.len() - 3, s.len() as int));
    if plan.codec == Codec::Hevc {
        let a = build_args(plan, encoder, output, audio);
        assert(plan == EncodePlan { codec: Codec::Hevc, ..plan });
        let i = a.len() - 5;
        assert(a[i] == "-tag:v"@ && a[i + 1] == "hvc1"@);
    }
}

} // verus!
