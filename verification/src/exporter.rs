//! What the exporter decides: which encoder runs a plan, and what its
//! progress reports carry. Running ffmpeg itself is I/O and lives with
//! the application.

use vstd::prelude::*;

use crate::encoders::{chosen, Encoder, EncoderCatalog};
use crate::jobs::Cancelled;
use crate::plan::{Codec, EncodePlan};
use crate::progress::ProgressLine;
use crate::strs::chars_of;
use crate::words::{skip_space_exec, string_of, trim, trim_end_exec};

verus! {

/// Why an export did not produce a file.
#[derive(Debug, PartialEq, Eq)]
pub enum ExportError {
    /// No encoder for the codec; the bundled ffmpeg lacks it.
    NoEncoder(Codec),
    /// ffmpeg could not be started.
    Spawn { path: String, message: String },
    /// Writing frames to ffmpeg failed.
    Pipe(String),
    /// ffmpeg exited unsuccessfully; `stderr` is what it printed, trimmed.
    Failed { status: String, stderr: String },
    /// The timeline is empty.
    Empty,
    Cancelled,
    /// HDR frames need the GPU renderer, which is not available.
    HdrUnavailable,
    /// The output file was not written.
    NoOutput,
    /// A frame does not have the plan's size.
    FrameSize { index: u64, got_w: u32, got_h: u32, want_w: u32, want_h: u32 },
}

impl ExportError {
    /// The error a cancelled export reports.
    pub fn from_cancelled(_c: Cancelled) -> (e: ExportError)
        ensures
            e is Cancelled,
    {
        ExportError::Cancelled
    }
}

/// What happened.
#[derive(Debug, PartialEq, Eq)]
pub struct ExportReport {
    pub output: String,
    pub frames: u64,
    pub encoder: &'static str,
    pub elapsed_ms: u64,
    pub bytes: u64,
}

/// What the frame source hands over for one frame.
#[derive(Copy, Clone, Debug, PartialEq, Eq, Structural)]
pub enum FrameKind {
    /// A newly rendered 8-bit frame of this size.
    New { width: u32, height: u32 },
    /// A newly rendered HDR frame of this size.
    Hdr { width: u32, height: u32 },
    /// HDR was asked for but cannot be rendered here.
    Unavailable,
    /// Pixel-identical to the previous frame.
    SameAsPrevious,
}

/// What the export loop does with one frame.
#[derive(Debug, PartialEq, Eq)]
pub enum FrameStep {
    /// Convert the new frame, keep it as the current buffer and send it.
    Convert,
    /// Send the current buffer again.
    Resend,
    /// Stop ffmpeg, remove the partial file and fail.
    Abandon(ExportError),
    /// Stop sending; the write fails with this message.
    Stop(String),
}

/// Decides what to do with frame `index` of an export of `plan`, given
/// whether a converted buffer exists yet.
pub fn frame_step(plan: &EncodePlan, index: u64, kind: FrameKind, have_current: bool) -> (s: FrameStep)
    ensures
        match kind {
            FrameKind::New { width, height } | FrameKind::Hdr { width, height } => if width == plan.width
                && height == plan.height {
                s is Convert
            } else {
                s == FrameStep::Abandon(
                    ExportError::FrameSize {
                        index,
                        got_w: width,
                        got_h: height,
                        want_w: plan.width,
                        want_h: plan.height,
                    },
                )
            },
            FrameKind::Unavailable => s == FrameStep::Abandon(ExportError::HdrUnavailable),
            FrameKind::SameAsPrevious => if have_current {
                s is Resend
            } else {
                s matches FrameStep::Stop(m) && m@ == "frame source returned SameAsPrevious first"@
            },
        },
{
    match kind {
        FrameKind::New { width, height } | FrameKind::Hdr { width, height } => {
            if width == plan.width && height == plan.height {
                FrameStep::Convert
            } else {
                FrameStep::Abandon(
                    ExportError::FrameSize { index, got_w: width, got_h: height, want_w: plan.width, want_h: plan.height },
                )
            }
        },
        FrameKind::Unavailable => FrameStep::Abandon(ExportError::HdrUnavailable),
        FrameKind::SameAsPrevious => {
            if have_current {
                FrameStep::Resend
            } else {
                FrameStep::Stop("frame source returned SameAsPrevious first".to_owned())
            }
        },
    }
}

/// `s` without white space at either end.
fn trimmed(s: &str) -> (r: String)
    ensures
        r@ == trim(s@),
{
    let v = chars_of(s);
    let a = skip_space_exec(&v, 0);
    let b = trim_end_exec(&v, v.len());
    proof {
        crate::words::lemma_trim_end(v@, v@.len() as int);
    }
    if a >= b {
        String::new()
    } else {
        string_of(&v, a, b)
    }
}

/// How an ffmpeg run ended, as the export loop saw it.
pub struct RunEnd {
    /// The user cancelled; ffmpeg was killed.
    pub cancelled: bool,
    /// Sending frames failed with this message.
    pub write_error: Option<String>,
    /// ffmpeg exited successfully.
    pub success: bool,
    /// ffmpeg's exit status as text.
    pub status: String,
    /// What ffmpeg printed on stderr.
    pub stderr: String,
    /// Size of the output file, 0 if there is none.
    pub bytes: u64,
}

/// The result of an export once ffmpeg has ended, and whether the partial
/// output file is removed: a cancel removes it and fails; a failed write
/// fails with ffmpeg's own words if it exited unsuccessfully, else with the
/// write error; an unsuccessful exit removes the file and fails; an empty
/// file fails; otherwise the report.
pub fn finish(end: RunEnd, output: String, frames: u64, encoder: &Encoder, elapsed_ms: u64) -> (r: (
    Result<ExportReport, ExportError>,
    bool,
))
    ensures
        end.cancelled ==> (r.0 == Err::<ExportReport, ExportError>(ExportError::Cancelled) && r.1),
        (!end.cancelled && end.write_error is Some && !end.success) ==> (!r.1 && (r.0 matches Err(
            ExportError::Failed { status, stderr },
        ) && status@ == end.status@ && stderr@ == trim(end.stderr@))),
        (!end.cancelled && end.write_error is Some && end.success) ==> (!r.1 && r.0 == Err::<
            ExportReport,
            ExportError,
        >(ExportError::Pipe(end.write_error->0))),
        (!end.cancelled && end.write_error is None && !end.success) ==> (r.1 && (r.0 matches Err(
            ExportError::Failed { status, stderr },
        ) && status@ == end.status@ && stderr@ == trim(end.stderr@))),
        (!end.cancelled && end.write_error is None && end.success && end.bytes == 0) ==> (!r.1 && r.0 == Err::<
            ExportReport,
            ExportError,
        >(ExportError::NoOutput)),
        (!end.cancelled && end.write_error is None && end.success && end.bytes > 0) ==> (!r.1 && (r.0 matches Ok(
            rep,
        ) && rep.output@ == output@ && rep.frames == frames && rep.encoder == encoder.name && rep.elapsed_ms
            == elapsed_ms && rep.bytes == end.bytes)),
{
    if end.cancelled {
        return (Err(ExportError::Cancelled), true);
    }
    match end.write_error {
        Some(m) => {
            if !end.success {
                return (Err(ExportError::Failed { status: end.status, stderr: trimmed(end.stderr.as_str()) }), false);
            }
            return (Err(ExportError::Pipe(m)), false);
        },
        None => {},
    }
    if !end.success {
        return (Err(ExportError::Failed { status: end.status, stderr: trimmed(end.stderr.as_str()) }), true);
    }
    if end.bytes == 0 {
        return (Err(ExportError::NoOutput), false);
    }
    (Ok(ExportReport { output, frames, encoder: encoder.name, elapsed_ms, bytes: end.bytes }), false)
}

/// Progress callback payload: frames written by us and what ffmpeg reports.
#[derive(Debug, PartialEq, Eq)]
pub struct ExportProgress {
    pub frames_sent: u64,
    pub frames_total: u64,
    pub encoded: Option<ProgressLine>,
}

/// Encodes frames with ffmpeg.
#[derive(Debug)]
pub struct Exporter {
    ffmpeg: String,
    catalog: EncoderCatalog,
    pub prefer_hardware: bool,
}

impl Exporter {
    pub fn with_catalog(ffmpeg: String, catalog: EncoderCatalog) -> (e: Exporter)
        ensures
            e.ffmpeg_spec() == ffmpeg@,
            e.catalog_spec() == catalog@,
            e.hardware_first(),
    {
        Exporter { ffmpeg, catalog, prefer_hardware: true }
    }

    /// Whether hardware encoders are tried first.
    pub closed spec fn hardware_first(&self) -> bool {
        self.prefer_hardware
    }

    pub closed spec fn ffmpeg_spec(&self) -> Seq<char> {
        self.ffmpeg@
    }

    pub closed spec fn catalog_spec(&self) -> Seq<Seq<char>> {
        self.catalog@
    }

    /// Path of the ffmpeg binary.
    pub fn ffmpeg(&self) -> (p: &str)
        ensures
            p@ == self.ffmpeg_spec(),
    {
        self.ffmpeg.as_str()
    }

    /// The encoder that would be used for `plan`; `works` runs the test
    /// encode of a hardware encoder (listed is not the same as present).
    pub fn encoder_for<F: FnMut(&Encoder) -> bool>(&self, plan: &EncodePlan, works: F) -> (r: Option<Encoder>)
        requires
            forall|e: &Encoder| call_requires(works, (e,)),
        ensures
            chosen(r, works, plan.codec, self.catalog_spec(), self.hardware_first()),
    {
        self.catalog.pick_verified(plan.codec, self.prefer_hardware, works)
    }

    /// The checks before ffmpeg starts: an empty timeline fails, then a
    /// codec without an encoder; otherwise the encoder to run.
    pub fn begin<F: FnMut(&Encoder) -> bool>(&self, plan: &EncodePlan, frames_total: u64, works: F) -> (r: Result<
        Encoder,
        ExportError,
    >)
        requires
            forall|e: &Encoder| call_requires(works, (e,)),
        ensures
            frames_total == 0 ==> r == Err::<Encoder, ExportError>(ExportError::Empty),
            frames_total > 0 ==> match r {
                Ok(e) => chosen(Some(e), works, plan.codec, self.catalog_spec(), self.hardware_first()),
                Err(err) => err == ExportError::NoEncoder(plan.codec) && chosen(
                    None,
                    works,
                    plan.codec,
                    self.catalog_spec(),
                    self.hardware_first(),
                ),
            },
    {
        if frames_total == 0 {
            return Err(ExportError::Empty);
        }
        match self.encoder_for(plan, works) {
            Some(e) => Ok(e),
            None => Err(ExportError::NoEncoder(plan.codec)),
        }
    }
}

} // verus!
