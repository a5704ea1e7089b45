use clipforge::args::{build, gop_frames, output_pix_fmt, probe};
use clipforge::encoders::Encoder;
use clipforge::options::ExportOptions;
use clipforge::plan::{EncodePlan, PixelFormat};
use clipforge::settings::{Aspect, Resolution};
use clipforge::time::FrameRate;

fn plan(hdr: bool) -> EncodePlan {
    let opts = ExportOptions { resolution: Resolution::FullHd, hdr, ..ExportOptions::default() };
    EncodePlan::build(&opts, Aspect::Landscape16x9, FrameRate::fps_30())
}

fn has_pair(args: &[String], k: &str, v: &str) -> bool {
    args.windows(2).any(|w| w[0] == k && w[1] == v)
}

#[test]
fn sdr_h264_command_line() {
    let a = build(&plan(false), &Encoder { name: "libx264", hardware: false }, "/out/movie.mp4", None);
    assert_eq!(a.last().unwrap(), "/out/movie.mp4");
    assert!(has_pair(&a, "-f", "rawvideo"));
    assert!(has_pair(&a, "-s", "1920x1080"));
    assert!(has_pair(&a, "-r", "30/1"));
    assert!(has_pair(&a, "-i", "pipe:0"));
    assert!(has_pair(&a, "-pix_fmt", "yuv420p"));
    assert!(has_pair(&a, "-c:v", "libx264"));
    assert!(has_pair(&a, "-g", "60"));
    assert!(has_pair(&a, "-color_trc", "bt709"));
    assert!(has_pair(&a, "-movflags", "+faststart"));
    assert!(has_pair(&a, "-progress", "pipe:1"));
    assert!(has_pair(&a, "-preset", "medium"));
    assert!(!a.iter().any(|s| s == "-tag:v"));
    assert!(a.contains(&"-an".to_owned()));
}

#[test]
fn hdr_hevc_command_line() {
    let a = build(&plan(true), &Encoder { name: "hevc_videotoolbox", hardware: true }, "o.mp4", None);
    assert!(has_pair(&a, "-c:v", "hevc_videotoolbox"));
    assert!(has_pair(&a, "-pix_fmt", "yuv420p10le"));
    let input = a.iter().position(|s| s == "pipe:0").unwrap();
    assert!(has_pair(&a[..input], "-pix_fmt", "yuv420p10le"));
    assert!(has_pair(&a, "-profile:v", "main10"));
    assert!(has_pair(&a, "-color_trc", "arib-std-b67"));
    assert!(has_pair(&a, "-tag:v", "hvc1"));
}

#[test]
fn youtube_closes_gops_on_every_encoder() {
    let mut p = plan(false);
    p.closed_gop = true;
    for name in ["libx264", "h264_videotoolbox", "libx265"] {
        let a = build(&p, &Encoder { name, hardware: false }, "o.mp4", None);
        assert!(has_pair(&a, "-flags", "+cgop"), "{name}");
        assert!(has_pair(&a, "-bf", "2"), "{name}");
    }
    let a = build(&p, &Encoder { name: "libx265", hardware: false }, "o.mp4", None);
    assert!(has_pair(&a, "-x265-params", "log-level=error:open-gop=0"));
    assert!(!build(&plan(false), &Encoder { name: "libx264", hardware: false }, "o.mp4", None)
        .contains(&"+cgop".to_owned()));
}

#[test]
fn gpu_encoders_get_nv12_or_p010_and_their_own_options() {
    let hw = |name| Encoder { name, hardware: true };
    let sdr = build(&plan(false), &hw("h264_nvenc"), "o.mp4", None);
    assert!(has_pair(&sdr, "-pix_fmt", "nv12"));
    assert!(has_pair(&sdr, "-rc", "vbr") && has_pair(&sdr, "-profile:v", "high"));
    let input = sdr.iter().position(|s| s == "pipe:0").unwrap();
    assert!(has_pair(&sdr[..input], "-pix_fmt", "yuv420p"));
    for name in ["hevc_nvenc", "hevc_qsv", "hevc_amf"] {
        let a = build(&plan(true), &hw(name), "o.mp4", None);
        assert!(has_pair(&a, "-pix_fmt", "p010le"), "{name}");
        assert!(has_pair(&a, "-profile:v", "main10"), "{name}");
    }
    let mf = build(&plan(true), &hw("hevc_mf"), "o.mp4", None);
    assert!(has_pair(&mf, "-pix_fmt", "p010le") && has_pair(&mf, "-rate_control", "pc_vbr"));
    assert!(has_pair(&build(&plan(false), &hw("h264_amf"), "o.mp4", None), "-quality", "balanced"));
    let sw = build(&plan(true), &Encoder { name: "libx265", hardware: false }, "o.mp4", None);
    let out = sw.iter().rposition(|s| s == "-pix_fmt").unwrap();
    assert_eq!(sw[out + 1], "yuv420p10le");
}

#[test]
fn probe_is_a_short_null_encode_with_the_real_options() {
    let a = probe(&Encoder { name: "hevc_nvenc", hardware: true }, PixelFormat::Yuv420p10le);
    assert!(has_pair(&a, "-f", "lavfi") && has_pair(&a, "-frames:v", "3"));
    assert!(has_pair(&a, "-c:v", "hevc_nvenc"));
    assert!(has_pair(&a, "-pix_fmt", "p010le") && has_pair(&a, "-profile:v", "main10"));
    assert_eq!(a[a.len() - 3..], ["-f", "null", "-"]);
}

#[test]
fn audio_input_is_mapped_and_encoded() {
    let a = build(&plan(false), &Encoder { name: "libx264", hardware: false }, "o.mp4", Some("/tmp/mix.wav"));
    assert!(has_pair(&a, "-i", "/tmp/mix.wav"));
    assert!(has_pair(&a, "-map", "0:v:0") && has_pair(&a, "-map", "1:a:0"));
    assert!(has_pair(&a, "-c:a", "aac"));
    assert!(has_pair(&a, "-b:a", "256k"));
    assert!(a.contains(&"-shortest".to_owned()));
    assert!(!a.contains(&"-an".to_owned()));
    let video_in = a.iter().position(|s| s == "pipe:0").unwrap();
    let audio_in = a.iter().position(|s| s == "/tmp/mix.wav").unwrap();
    assert!(video_in < audio_in, "video is input 0");
}

#[test]
fn gop_follows_frame_rate() {
    let opts = ExportOptions::default();
    let p = EncodePlan::build(&opts, Aspect::Landscape16x9, FrameRate::fps_23_976());
    assert_eq!(gop_frames(&p), 48);
    let p = EncodePlan::build(&opts, Aspect::Landscape16x9, FrameRate::fps_60());
    assert_eq!(gop_frames(&p), 120);
}

#[test]
fn output_pixel_format_follows_the_encoder_family() {
    let hw = Encoder { name: "h264_qsv", hardware: true };
    let sw = Encoder { name: "libx264", hardware: false };
    assert_eq!(output_pix_fmt(&hw, PixelFormat::Yuv420p), "nv12");
    assert_eq!(output_pix_fmt(&hw, PixelFormat::Yuv420p10le), "p010le");
    assert_eq!(output_pix_fmt(&sw, PixelFormat::Yuv420p), "yuv420p");
    assert_eq!(output_pix_fmt(&sw, PixelFormat::Yuv420p10le), "yuv420p10le");
}

#[test]
fn video_bitrate_appears_in_kilobits() {
    let a = build(&plan(false), &Encoder { name: "libx264", hardware: false }, "o.mp4", None);
    assert!(has_pair(&a, "-b:v", "12000k"));
    assert!(has_pair(&a, "-maxrate", "18000k"));
    assert!(has_pair(&a, "-bufsize", "24000k"));
}
