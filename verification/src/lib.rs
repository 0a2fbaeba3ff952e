//! `onas` as a library: image conversion, audio and video transcoding and
//! metadata editing, as the decisions and data transformations that the
//! `onas` binary drives.
//!
//! Every subcommand ends in a [`Report`]: the structured result that the
//! binary prints (also as JSON with `--json`), and [`exitcode`] maps a
//! failure to the process exit status.
use vstd::prelude::*;

pub mod text;
pub mod error;
pub mod exitcode;
pub mod cli;
pub mod image;
pub mod meta;
pub mod video;
pub mod mkv;
pub mod subtitle;
pub mod audio;
pub mod frame;

use crate::text::{decimal, decimal_chars};

verus! {

/// Structured result of a single `onas` operation, meant for both
/// programmatic library callers and `--json` CLI output. Fields are
/// `Option` because not every subcommand produces every kind of value
/// (e.g. `meta --dump` has no output path; `image`/`video`/`frame` always
/// have `width`/`height`; `audio` never does).
#[derive(Debug)]
pub struct Report {
    /// Which subcommand produced this report.
    pub command: &'static str,
    /// Input file path, if the operation took one.
    pub input: Option<String>,
    /// Output file path, if the operation wrote one.
    pub output: Option<String>,
    /// Output pixel width, for image/video/frame operations.
    pub width: Option<u32>,
    /// Output pixel height, for image/video/frame operations.
    pub height: Option<u32>,
    /// Free-form human-readable summary.
    pub message: String,
}

/// The summary of an operation that produced a `w`×`h` picture: `"{w} × {h}"`.
pub open spec fn dims_message(w: u32, h: u32) -> Seq<char> {
    decimal(w as nat) + " × "@ + decimal(h as nat)
}

/// `"{w} × {h}"`.
pub fn dims_text(w: u32, h: u32) -> (r: String)
    ensures
        r@ == dims_message(w, h),
{
    let mut m = crate::text::string_of(decimal_chars(w).as_slice());
    m.append(" × ");
    let hs = crate::text::string_of(decimal_chars(h).as_slice());
    m.append(hs.as_str());
    m
}

/// The report of `onas image`, whose result picture is `w`×`h`.
pub fn run_image(args: cli::ImageArgs, w: u32, h: u32) -> (r: Report)
    ensures
        r.command@ == "image"@,
        r.input == Some(args.input),
        r.output == Some(args.output),
        r.width == Some(w),
        r.height == Some(h),
        r.message@ == dims_message(w, h),
{
    Report {
        command: "image",
        input: Some(args.input),
        output: Some(args.output),
        width: Some(w),
        height: Some(h),
        message: dims_text(w, h),
    }
}

/// The report of `onas audio`.
pub fn run_audio(args: cli::AudioArgs) -> (r: Report)
    ensures
        r.command@ == "audio"@,
        r.input == Some(args.input),
        r.output == Some(args.output),
        r.width is None,
        r.height is None,
        r.message@ == "ok"@,
{
    Report {
        command: "audio",
        input: Some(args.input),
        output: Some(args.output),
        width: None,
        height: None,
        message: String::from_str("ok"),
    }
}

/// The name that the success line gives a video codec (its `Debug` text).
pub open spec fn vcodec_name(v: cli::VideoCodec) -> Seq<char> {
    match v {
        cli::VideoCodec::H264 => "H264"@,
        cli::VideoCodec::H265 => "H265"@,
        cli::VideoCodec::Vp9 => "Vp9"@,
        cli::VideoCodec::Av1 => "Av1"@,
        cli::VideoCodec::Copy => "Copy"@,
    }
}

/// The line that `onas video` prints on success:
/// `"{input} → {output}  ({w}×{h}  {vcodec}  CRF {crf})"`.
pub open spec fn video_message(args: cli::VideoArgs, w: u32, h: u32) -> Seq<char> {
    args.input@ + " → "@ + args.output@ + "  ("@ + decimal(w as nat) + "×"@ + decimal(h as nat)
        + "  "@ + vcodec_name(args.vcodec) + "  CRF "@ + decimal(args.crf as nat) + ")"@
}

/// The report of `onas video`, whose output video is `w`×`h`; the message
/// is the success line.
pub fn run_video(args: cli::VideoArgs, w: u32, h: u32) -> (r: Report)
    ensures
        r.command@ == "video"@,
        r.input == Some(args.input),
        r.output == Some(args.output),
        r.width == Some(w),
        r.height == Some(h),
        r.message@ == video_message(args, w, h),
{
    let mut m = String::from_str(args.input.as_str());
    m.append(" → ");
    m.append(args.output.as_str());
    m.append("  (");
    m.append(crate::text::string_of(decimal_chars(w).as_slice()).as_str());
    m.append("×");
    m.append(crate::text::string_of(decimal_chars(h).as_slice()).as_str());
    m.append("  ");
    m.append(
        match args.vcodec {
            cli::VideoCodec::H264 => "H264",
            cli::VideoCodec::H265 => "H265",
            cli::VideoCodec::Vp9 => "Vp9",
            cli::VideoCodec::Av1 => "Av1",
            cli::VideoCodec::Copy => "Copy",
        },
    );
    m.append("  CRF ");
    m.append(crate::text::string_of(decimal_chars(args.crf as u32).as_slice()).as_str());
    m.append(")");
    Report {
        command: "video",
        input: Some(args.input),
        output: Some(args.output),
        width: Some(w),
        height: Some(h),
        message: m,
    }
}

/// The report of `onas frame`, whose extracted picture is `w`×`h`.
pub fn run_frame(args: cli::FrameArgs, w: u32, h: u32) -> (r: Report)
    ensures
        r.command@ == "frame"@,
        r.input == Some(args.input),
        r.output == Some(args.output),
        r.width == Some(w),
        r.height == Some(h),
        r.message@ == dims_message(w, h),
{
    Report {
        command: "frame",
        input: Some(args.input),
        output: Some(args.output),
        width: Some(w),
        height: Some(h),
        message: dims_text(w, h),
    }
}

/// The report of `onas meta`.
pub fn run_meta(args: cli::MetaArgs) -> (r: Report)
    ensures
        r.command@ == "meta"@,
        r.input == Some(args.file),
        r.output is None,
        r.width is None,
        r.height is None,
        r.message@ == "ok"@,
{
    Report {
        command: "meta",
        input: Some(args.file),
        output: None,
        width: None,
        height: None,
        message: String::from_str("ok"),
    }
}

} // verus!
