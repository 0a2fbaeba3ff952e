//! Video transcoding into an MKV container.
//!
//! The codecs and the container reader work on files and on codec state;
//! this module holds what decides and what is computed in between: the
//! checks on a request, the track probe, the choice of decoder, encoder and
//! codec ids, the bookkeeping of encoded packets, YUV plane copies, the
//! SRT to ASS conversion and the byte layout of the MKV that is written.
use vstd::prelude::*;
use crate::cli::{opt_debug, opt_debug_text, path_ext, path_extension, is_word, VideoArgs};
use crate::error::Error;
use crate::exitcode::{chain_code, law_opt_errors_are_usage, opt_usage_message, USAGE};
use crate::image::{dims_result, fill_dims, filled, matches_result, parse_dims};
use crate::cli::{VideoCodec, VideoAudioCodec};
use crate::mkv::{AudioPacket, VideoPacket};
use crate::text::{ascii_lower, chars_of, contains, find_char, first_index, occurs_at, seq_contains, slice_range, string_of};

verus! {

// ─── request checks ──────────────────────────────────────────────────────────

/// The error for an output that is no `.mkv` file: the phrase, then the
/// output's extension.
pub open spec fn mkv_error(e: Option<Seq<char>>) -> Seq<Seq<char>> {
    seq!["Output must be .mkv; got"@, opt_debug_text(e)]
}

/// Checks a transcoding request before any file is touched: the output
/// extension must be exactly `mkv`, and `--hardsub` is refused (without
/// `--sub` as a usage error, with it as not implemented). `Ok` means the
/// transcode may start.
pub fn run(args: &VideoArgs) -> (r: Result<(), Error>)
    ensures
        path_ext(args.output@) != Some("mkv"@) ==> (r matches Err(err) && err@ == mkv_error(path_ext(args.output@))),
        path_ext(args.output@) == Some("mkv"@) ==> {
            if args.hardsub && args.sub is None {
                (r matches Err(err) && err@ == seq!["--hardsub requires --sub <file>"@])
            } else if args.hardsub {
                (r matches Err(err) && err@ == seq![
                    "--hardsub is not yet implemented. Use soft subtitle embed (omit --hardsub)."@,
                ])
            } else {
                r is Ok
            }
        },
{
    let e = path_extension(args.output.as_str());
    let is_mkv = match &e {
        None => false,
        Some(s) => {
            let c = crate::text::chars_of(s.as_str());
            is_word(c.as_slice(), "mkv")
        },
    };
    if !is_mkv {
        let d = match &e {
            None => opt_debug(None),
            Some(s) => opt_debug(Some(s.as_str())),
        };
        return Err(Error::detailed("Output must be .mkv; got", d));
    }
    if args.hardsub && args.sub.is_none() {
        return Err(Error::msg(String::from_str("--hardsub requires --sub <file>")));
    }
    if args.hardsub {
        return Err(
            Error::msg(
                String::from_str(
                    "--hardsub is not yet implemented. Use soft subtitle embed (omit --hardsub).",
                ),
            ),
        );
    }
    Ok(())
}

/// Parses the `--resize` argument of `onas video`.
pub fn parse_resize(s: &str) -> (r: Result<(u32, u32), Error>)
    ensures
        matches_result(r, dims_result(s@, "--resize must be WIDTHxHEIGHT e.g. 1280x720 or 0x1080"@)),
{
    parse_dims(s, "--resize must be WIDTHxHEIGHT e.g. 1280x720 or 0x1080")
}

// ─── YUV 4:2:0 frames ────────────────────────────────────────────────────────

/// The index of column `c` of row `r` in a plane whose rows are `stride` apart.
pub open spec fn pix(stride: int, r: int, c: int) -> int {
    r * stride + c
}

/// The size of one chroma plane of a `w`×`h` 4:2:0 frame.
pub open spec fn chroma_len(w: u32, h: u32) -> nat {
    ((w / 2) * ((h + 1) / 2)) as nat
}

/// A decoded 4:2:0 frame: a full-size luma plane and two chroma planes of
/// half the width and half the height (rounded up), with its timestamp.
#[derive(Debug)]
pub struct YuvFrame {
    pub w: u32,
    pub h: u32,
    pub y: Vec<u8>,
    pub u: Vec<u8>,
    pub v: Vec<u8>,
    pub pts: i64,
}

proof fn lemma_chroma_le(w: u32, h: u32)
    requires
        h < u32::MAX,
    ensures
        (w / 2) * ((h + 1) / 2) <= (w as int) * (h as int) || h == 0,
        (w / 2) * ((h + 1) / 2) <= (w as int) * (h as int) + w,
{
    assert((w / 2) * ((h + 1) / 2) <= (w as int) * (h as int) + w) by (nonlinear_arith)
        requires
            h < u32::MAX,
    ;
    if h > 0 {
        assert((w / 2) * ((h + 1) / 2) <= (w as int) * (h as int)) by (nonlinear_arith)
            requires
                h >= 1,
        ;
    }
}

impl YuvFrame {
    /// A `w`×`h` frame at time `pts`, black in video range: luma 16,
    /// chroma 128.
    pub fn new(w: u32, h: u32, pts: i64) -> (f: YuvFrame)
        requires
            (w as int) * (h as int) <= u32::MAX,
            h < u32::MAX,
        ensures
            f.w == w,
            f.h == h,
            f.pts == pts,
            f.y@ == Seq::new((w as int * h as int) as nat, |i: int| 16u8),
            f.u@ == Seq::new(chroma_len(w, h), |i: int| 128u8),
            f.v@ == Seq::new(chroma_len(w, h), |i: int| 128u8),
    {
        proof {
            lemma_chroma_le(w, h);
        }
        let n: u32 = w * h;
        let half_h: u32 = (h + 1) / 2;
        let c: u32 = (w / 2) * half_h;
        let y = vec![16u8; n as usize];
        let u = vec![128u8; c as usize];
        let v = vec![128u8; c as usize];
        assert(y@ =~= Seq::new((w as int * h as int) as nat, |i: int| 16u8));
        assert(u@ =~= Seq::new(chroma_len(w, h), |i: int| 128u8));
        assert(v@ =~= Seq::new(chroma_len(w, h), |i: int| 128u8));
        YuvFrame { w, h, y, u, v, pts }
    }
}

proof fn lemma_row_end(r: int, w: int, h: int)
    requires
        0 <= r < h,
        0 <= w,
    ensures
        pix(w, r, 0) + w <= w * h,
{
    assert(r * w + w <= w * h) by (nonlinear_arith)
        requires
            0 <= r < h,
            0 <= w,
    ;
}

proof fn lemma_rows_apart(r1: int, c1: int, r2: int, w: int)
    requires
        0 <= r1 < r2,
        0 <= c1 < w,
    ensures
        pix(w, r1, c1) < pix(w, r2, 0),
{
    assert(r1 * w + c1 < r2 * w) by (nonlinear_arith)
        requires
            0 <= r1 < r2,
            0 <= c1 < w,
    ;
}

proof fn lemma_src_row(r: int, stride: int, w: int, h: int, len: int)
    requires
        0 <= r < h,
        0 <= stride,
        0 <= w,
        (h - 1) * stride + w <= len,
    ensures
        0 <= pix(stride, r, 0),
        pix(stride, r, 0) + w <= len,
{
    assert(r * stride <= (h - 1) * stride) by (nonlinear_arith)
        requires
            0 <= r < h,
            0 <= stride,
    ;
    assert(0 <= r * stride) by (nonlinear_arith)
        requires
            0 <= r,
            0 <= stride,
    ;
}

/// Copies a `w`×`h` plane whose source rows are `stride` bytes apart into
/// `dst`, packed (rows `w` apart); `dst` is resized to `w * h` first.
pub fn copy_strided(src: &[u8], stride: usize, w: usize, h: usize, dst: &mut Vec<u8>)
    requires
        (w as int) * (h as int) <= usize::MAX,
        h == 0 || (h - 1) * stride + w <= src.len(),
    ensures
        final(dst)@.len() == w * h,
        forall|r: int, c: int|
            0 <= r < h && 0 <= c < w ==> #[trigger] final(dst)@[pix(w as int, r, c)] == src@[pix(
                stride as int,
                r,
                c,
            )],
{
    let n: usize = w * h;
    dst.resize(n, 0u8);
    let mut row: usize = 0;
    while row < h
        invariant
            n == w * h,
            dst@.len() == n,
            row <= h,
            h == 0 || (h - 1) * stride + w <= src.len(),
            forall|r: int, c: int|
                0 <= r < row && 0 <= c < w ==> #[trigger] dst@[pix(w as int, r, c)] == src@[pix(
                    stride as int,
                    r,
                    c,
                )],
        decreases h - row,
    {
        proof {
            lemma_row_end(row as int, w as int, h as int);
            lemma_src_row(row as int, stride as int, w as int, h as int, src.len() as int);
        }
        let base = row * w;
        let sbase = row * stride;
        let mut col: usize = 0;
        while col < w
            invariant
                n == w * h,
                dst@.len() == n,
                row < h,
                col <= w,
                base == pix(w as int, row as int, 0),
                sbase == pix(stride as int, row as int, 0),
                base + w <= n,
                sbase + w <= src.len(),
                forall|r: int, c: int|
                    0 <= r < row && 0 <= c < w ==> #[trigger] dst@[pix(w as int, r, c)] == src@[pix(
                        stride as int,
                        r,
                        c,
                    )],
                forall|c: int| 0 <= c < col ==> #[trigger] dst@[base + c] == src@[sbase + c],
            decreases w - col,
        {
            let ghost prev = dst@;
            dst[base + col] = src[sbase + col];
            proof {
                assert forall|r: int, c: int|
                    0 <= r < row && 0 <= c < w implies #[trigger] dst@[pix(w as int, r, c)] == src@[pix(
                        stride as int,
                        r,
                        c,
                    )] by {
                    lemma_rows_apart(r, c, row as int, w as int);
                    assert(dst@[pix(w as int, r, c)] == prev[pix(w as int, r, c)]);
                }
                assert forall|c: int| 0 <= c < col + 1 implies #[trigger] dst@[base + c] == src@[sbase
                    + c] by {
                    if c < col {
                        assert(dst@[base + c] == prev[base + c]);
                    }
                }
            }
            col = col + 1;
        }
        proof {
            assert forall|r: int, c: int|
                0 <= r < row + 1 && 0 <= c < w implies #[trigger] dst@[pix(w as int, r, c)] == src@[pix(
                    stride as int,
                    r,
                    c,
                )] by {
                if r == row {
                    assert(pix(w as int, r, c) == base + c);
                    assert(pix(stride as int, r, c) == sbase + c);
                }
            }
        }
        row = row + 1;
    }
}

// ─── track probe ─────────────────────────────────────────────────────────────

/// The kind of a track of the input container.
#[derive(Debug, Clone, Copy, PartialEq, Eq, Structural)]
pub enum TrackKind {
    Video,
    Audio,
    /// Subtitles, buttons, logos, metadata or any other kind.
    Other,
}

/// One track of the input container, as the probe reads it.
#[derive(Debug)]
pub struct TrackEntry {
    /// The track number that blocks refer to.
    pub number: u64,
    pub kind: TrackKind,
    pub codec_id: String,
    /// Pixel width and height, for a track with video settings.
    pub video_size: Option<(u64, u64)>,
    /// Default duration of one frame, in nanoseconds.
    pub default_duration_ns: Option<u64>,
}

/// What the transcode needs to know of the input.
#[derive(Debug)]
pub struct TrackInfo {
    pub v_track: u64,
    pub a_track: Option<u64>,
    pub codec_id: String,
    pub a_codec_id: String,
    pub src_w: u32,
    pub src_h: u32,
    pub fps_num: u32,
    pub fps_den: u32,
}

/// `i` is the first track of kind `k`.
pub open spec fn is_first_of(t: Seq<TrackEntry>, k: TrackKind, i: int) -> bool {
    0 <= i < t.len() && t[i].kind == k && forall|j: int| 0 <= j < i ==> t[j].kind != k
}

/// The position of the first track of kind `k`, if any.
pub open spec fn first_of(t: Seq<TrackEntry>, k: TrackKind) -> Option<int> {
    if exists|i: int| is_first_of(t, k, i) {
        Some(choose|i: int| is_first_of(t, k, i))
    } else {
        None
    }
}

/// The frame rate numerator that a default frame duration gives:
/// `10^12 / ns`, truncated to 32 bits; 30 without a duration.
pub open spec fn fps_of(d: Option<u64>) -> u32 {
    match d {
        Some(ns) => (1_000_000_000_000u64 / ns) as u32,
        None => 30,
    }
}

/// The probe does not divide by zero: the first video track, if any, has no
/// default duration of 0.
pub open spec fn probe_defined(t: Seq<TrackEntry>) -> bool {
    match first_of(t, TrackKind::Video) {
        Some(i) => t[i].default_duration_ns != Some(0u64),
        None => true,
    }
}

fn find_kind(t: &Vec<TrackEntry>, k: TrackKind) -> (r: Option<usize>)
    ensures
        match r {
            Some(i) => first_of(t@, k) == Some(i as int),
            None => first_of(t@, k) is None,
        },
{
    let mut i: usize = 0;
    while i < t.len()
        invariant
            i <= t.len(),
            forall|j: int| 0 <= j < i ==> t@[j].kind != k,
        decreases t.len() - i,
    {
        if t[i].kind == k {
            proof {
                assert(is_first_of(t@, k, i as int));
                let c = choose|c: int| is_first_of(t@, k, c);
                if c < i {
                    assert(t@[c].kind != k);
                } else if i < c {
                    assert(t@[i as int].kind != k);
                }
            }
            return Some(i);
        }
        i = i + 1;
    }
    None
}

/// Reads what the transcode needs from the input's tracks: the first video
/// track (required, with video settings), the first audio track if any (its
/// codec, `A_OPUS` without one), the frame size truncated to 32 bits, and
/// the frame rate `10^12 / default duration` (30 without one) over 1.
pub fn probe_tracks(tracks: &Vec<TrackEntry>) -> (r: Result<TrackInfo, Error>)
    requires
        probe_defined(tracks@),
    ensures
        match first_of(tracks@, TrackKind::Video) {
            None => (r matches Err(e) && e@ == seq!["no video track in input"@]),
            Some(vi) => match tracks@[vi].video_size {
                None => (r matches Err(e) && e@ == seq!["video track missing video settings"@]),
                Some((pw, ph)) => r matches Ok(info) && {
                    let vt = tracks@[vi];
                    &&& info.v_track == vt.number
                    &&& info.codec_id@ == vt.codec_id@
                    &&& info.src_w == pw as u32
                    &&& info.src_h == ph as u32
                    &&& info.fps_num == fps_of(vt.default_duration_ns)
                    &&& info.fps_den == 1
                    &&& match first_of(tracks@, TrackKind::Audio) {
                        Some(ai) => info.a_track == Some(tracks@[ai].number)
                            && info.a_codec_id@ == tracks@[ai].codec_id@,
                        None => info.a_track is None && info.a_codec_id@ == "A_OPUS"@,
                    }
                },
            },
        },
{
    let vi = match find_kind(tracks, TrackKind::Video) {
        None => return Err(Error::msg(String::from_str("no video track in input"))),
        Some(i) => i,
    };
    let ai = find_kind(tracks, TrackKind::Audio);
    let vt = &tracks[vi];
    let (pw, ph) = match vt.video_size {
        None => return Err(Error::msg(String::from_str("video track missing video settings"))),
        Some(s) => s,
    };
    let fps_num: u32 = match vt.default_duration_ns {
        Some(ns) => {
            let q: u64 = 1_000_000_000_000u64 / ns;
            #[verifier::truncate]
            (q as u32)
        },
        None => 30,
    };
    let (a_track, a_codec_id) = match ai {
        Some(a) => (Some(tracks[a].number), tracks[a].codec_id.clone()),
        None => (None, String::from_str("A_OPUS")),
    };
    Ok(
        TrackInfo {
            v_track: vt.number,
            a_track,
            codec_id: vt.codec_id.clone(),
            a_codec_id,
            src_w: #[verifier::truncate] (pw as u32),
            src_h: #[verifier::truncate] (ph as u32),
            fps_num,
            fps_den: 1,
        },
    )
}

// ─── codec choice ────────────────────────────────────────────────────────────

/// The video decoders.
#[derive(Debug, Clone, Copy, PartialEq, Eq, Structural)]
pub enum DecoderKind {
    H264,
    H265,
    Vp9,
    Av1,
}

/// The decoder that a codec id asks for, and whether the id was recognized;
/// an unrecognized id is tried with the H.264 decoder.
pub open spec fn decoder_for(id: Seq<char>) -> (DecoderKind, bool) {
    if seq_contains(id, "AVC"@) || seq_contains(id, "H264"@) || seq_contains(id, "avc"@) {
        (DecoderKind::H264, true)
    } else if seq_contains(id, "HEVC"@) || seq_contains(id, "H265"@) || seq_contains(id, "hevc"@) {
        (DecoderKind::H265, true)
    } else if seq_contains(id, "VP9"@) || seq_contains(id, "vp9"@) {
        (DecoderKind::Vp9, true)
    } else if seq_contains(id, "AV1"@) || seq_contains(id, "av1"@) {
        (DecoderKind::Av1, true)
    } else {
        (DecoderKind::H264, false)
    }
}

fn holds_sub(l: &[char], needle: &str) -> (r: bool)
    ensures
        r == seq_contains(l@, needle@),
{
    let n = chars_of(needle);
    contains(l, n.as_slice())
}

/// Chooses the decoder for the input's video codec id.
pub fn select_decoder(codec_id: &str) -> (r: (DecoderKind, bool))
    ensures
        r == decoder_for(codec_id@),
{
    let c = chars_of(codec_id);
    let c = c.as_slice();
    if holds_sub(c, "AVC") || holds_sub(c, "H264") || holds_sub(c, "avc") {
        (DecoderKind::H264, true)
    } else if holds_sub(c, "HEVC") || holds_sub(c, "H265") || holds_sub(c, "hevc") {
        (DecoderKind::H265, true)
    } else if holds_sub(c, "VP9") || holds_sub(c, "vp9") {
        (DecoderKind::Vp9, true)
    } else if holds_sub(c, "AV1") || holds_sub(c, "av1") {
        (DecoderKind::Av1, true)
    } else {
        (DecoderKind::H264, false)
    }
}

proof fn lemma_no_triple(h: Seq<char>, n: Seq<char>)
    requires
        n.len() >= 3,
        forall|i: int|
            0 <= i && i + 2 < h.len() ==> !(#[trigger] h[i] == n[0] && h[i + 1] == n[1] && h[i + 2] == n[2]),
    ensures
        !seq_contains(h, n),
{
    if seq_contains(h, n) {
        let i = choose|i: int| occurs_at(h, n, i);
        let x = h.subrange(i, i + n.len());
        assert(x[0] == h[i] && x[1] == h[i + 1] && x[2] == h[i + 2]);
    }
}

proof fn lemma_at(h: Seq<char>, n: Seq<char>, i: int)
    requires
        0 <= i && i + n.len() <= h.len(),
        h.subrange(i, i + n.len()) =~= n,
    ensures
        seq_contains(h, n),
{
    assert(occurs_at(h, n, i));
}

/// The codec id written for each encoder reads back as that codec: the
/// decoder chosen for the video track id of an H.264, H.265, VP9 or AV1
/// output is the one of that codec, and the id is recognized.
pub proof fn law_codec_ids_read_back(input: Seq<char>)
    ensures
        decoder_for(video_codec_id_of(VideoCodec::H264, input)) == (DecoderKind::H264, true),
        decoder_for(video_codec_id_of(VideoCodec::H265, input)) == (DecoderKind::H265, true),
        decoder_for(video_codec_id_of(VideoCodec::Vp9, input)) == (DecoderKind::Vp9, true),
        decoder_for(video_codec_id_of(VideoCodec::Av1, input)) == (DecoderKind::Av1, true),
{
    reveal_strlit("V_MPEG4/ISO/AVC");
    reveal_strlit("V_MPEGH/ISO/HEVC");
    reveal_strlit("V_VP9");
    reveal_strlit("V_AV1");
    reveal_strlit("AVC");
    reveal_strlit("H264");
    reveal_strlit("avc");
    reveal_strlit("HEVC");
    reveal_strlit("H265");
    reveal_strlit("hevc");
    reveal_strlit("VP9");
    reveal_strlit("vp9");
    reveal_strlit("AV1");
    let a = "V_MPEG4/ISO/AVC"@;
    lemma_at(a, "AVC"@, 12);
    let b = "V_MPEGH/ISO/HEVC"@;
    lemma_no_triple(b, "AVC"@);
    lemma_no_triple(b, "H264"@);
    lemma_no_triple(b, "avc"@);
    lemma_at(b, "HEVC"@, 12);
    let c = "V_VP9"@;
    lemma_no_triple(c, "AVC"@);
    lemma_no_triple(c, "H264"@);
    lemma_no_triple(c, "avc"@);
    lemma_no_triple(c, "HEVC"@);
    lemma_no_triple(c, "H265"@);
    lemma_no_triple(c, "hevc"@);
    lemma_at(c, "VP9"@, 2);
    let d = "V_AV1"@;
    lemma_no_triple(d, "AVC"@);
    lemma_no_triple(d, "H264"@);
    lemma_no_triple(d, "avc"@);
    lemma_no_triple(d, "HEVC"@);
    lemma_no_triple(d, "H265"@);
    lemma_no_triple(d, "hevc"@);
    lemma_no_triple(d, "VP9"@);
    lemma_no_triple(d, "vp9"@);
    lemma_at(d, "AV1"@, 2);
}

/// Whether H.264 data of this codec id is length-prefixed (AVCC) rather than
/// Annex B: every id but those that contain `AVC1`.
pub fn is_avcc(codec_id: &str) -> (r: bool)
    ensures
        r == !seq_contains(codec_id@, "AVC1"@),
{
    let c = chars_of(codec_id);
    let found = holds_sub(c.as_slice(), "AVC1");
    !found
}

/// The Matroska codec id of the output video track.
pub open spec fn video_codec_id_of(v: VideoCodec, input: Seq<char>) -> Seq<char> {
    match v {
        VideoCodec::Copy => input,
        VideoCodec::H264 => "V_MPEG4/ISO/AVC"@,
        VideoCodec::H265 => "V_MPEGH/ISO/HEVC"@,
        VideoCodec::Vp9 => "V_VP9"@,
        VideoCodec::Av1 => "V_AV1"@,
    }
}

/// The Matroska codec id of the output audio track.
pub open spec fn audio_codec_id_of(a: VideoAudioCodec, input: Seq<char>) -> Seq<char> {
    match a {
        VideoAudioCodec::Copy => input,
        VideoAudioCodec::Opus => "A_OPUS"@,
        VideoAudioCodec::Aac => "A_AAC"@,
        VideoAudioCodec::Flac => "A_FLAC"@,
    }
}

/// The codec id of the output video track: the input's when copying.
pub fn video_codec_id(v: VideoCodec, input: &str) -> (r: String)
    ensures
        r@ == video_codec_id_of(v, input@),
{
    match v {
        VideoCodec::Copy => String::from_str(input),
        VideoCodec::H264 => String::from_str("V_MPEG4/ISO/AVC"),
        VideoCodec::H265 => String::from_str("V_MPEGH/ISO/HEVC"),
        VideoCodec::Vp9 => String::from_str("V_VP9"),
        VideoCodec::Av1 => String::from_str("V_AV1"),
    }
}

/// The codec id of the output audio track: the input's when copying.
pub fn audio_codec_id(a: VideoAudioCodec, input: &str) -> (r: String)
    ensures
        r@ == audio_codec_id_of(a, input@),
{
    match a {
        VideoAudioCodec::Copy => String::from_str(input),
        VideoAudioCodec::Opus => String::from_str("A_OPUS"),
        VideoAudioCodec::Aac => String::from_str("A_AAC"),
        VideoAudioCodec::Flac => String::from_str("A_FLAC"),
    }
}

/// A dimension rounded down to an even number (`x & !1`).
pub open spec fn even_down(x: u32) -> u32 {
    (x - x % 2) as u32
}

/// The output size without `--resize`: the source size, each side rounded
/// down to an even number as 4:2:0 encoders need.
pub fn even_dims(w: u32, h: u32) -> (r: (u32, u32))
    ensures
        r == (even_down(w), even_down(h)),
{
    let ew: u32 = w & !1u32;
    let eh: u32 = h & !1u32;
    assert(ew == w - w % 2) by (bit_vector)
        requires
            ew == w & !1u32,
    ;
    assert(eh == h - h % 2) by (bit_vector)
        requires
            eh == h & !1u32,
    ;
    (ew, eh)
}

/// The output size with `--resize tw×th` of a `sw`×`sh` source: a zero side
/// follows the aspect ratio (`filled`), then each side is rounded down to
/// an even number.
pub fn resolve_dims(sw: u32, sh: u32, tw: u32, th: u32) -> (r: (u32, u32))
    ensures
        r == (even_down(filled(sw, sh, tw, th).0), even_down(filled(sw, sh, tw, th).1)),
{
    let (w, h) = fill_dims(sw, sh, tw, th);
    even_dims(w, h)
}

/// The source row (or column) that nearest-neighbour scaling from `s` to
/// `d` samples reads for destination position `k`: `k * s / d` rounded
/// down, kept at most at the last source position. For sides below 2^16
/// this is the position that `(k as f64 * s as f64 / d as f64) as u32`
/// gives: the product is exact in `f64`, and the quotient's rounding error
/// stays far below the `1 / d` that separates it from the next integer.
pub open spec fn near(k: int, s: int, d: int) -> int {
    let q = k * s / d;
    let last = if s > 0 {
        s - 1
    } else {
        0
    };
    if q < last {
        q
    } else {
        last
    }
}

fn near_index(k: u32, s: u32, d: u32) -> (r: u32)
    requires
        d > 0,
        k < d,
    ensures
        r == near(k as int, s as int, d as int),
        s > 0 ==> r < s,
        s == 0 ==> r == 0,
{
    let a: u64 = k as u64;
    let b: u64 = s as u64;
    assert(a * b <= 0xffff_ffffu64 * 0xffff_ffffu64) by (nonlinear_arith)
        requires
            a <= 0xffff_ffffu64,
            b <= 0xffff_ffffu64,
    ;
    let q: u64 = (a * b) / (d as u64);
    let last: u64 = if s > 0 {
        (s - 1) as u64
    } else {
        0
    };
    if q < last {
        q as u32
    } else {
        last as u32
    }
}

proof fn lemma_inside(r: int, c: int, w: int, h: int)
    requires
        0 <= r < h,
        0 <= c < w,
    ensures
        0 <= pix(w, r, c) < w * h,
{
    assert(0 <= r * w + c < w * h) by (nonlinear_arith)
        requires
            0 <= r < h,
            0 <= c < w,
    ;
}

/// Nearest-neighbour scaling of a `sw`×`sh` plane into a `dw`×`dh` one:
/// each destination sample `(dx, dy)` takes the source sample at
/// `(near(dx, sw, dw), near(dy, sh, dh))`.
pub fn resample(src: &[u8], sw: u32, sh: u32, dst: &mut Vec<u8>, dw: u32, dh: u32)
    requires
        src@.len() >= (sw as int) * (sh as int),
        (sw as int) * (sh as int) <= u32::MAX,
        (dw as int) * (dh as int) <= u32::MAX,
        dw > 0 && dh > 0 ==> sw > 0 && sh > 0,
    ensures
        final(dst)@.len() == (dw as int) * (dh as int),
        forall|y: int, x: int|
            0 <= y < dh && 0 <= x < dw ==> #[trigger] final(dst)@[pix(dw as int, y, x)] == src@[pix(
                sw as int,
                near(y, sh as int, dh as int),
                near(x, sw as int, dw as int),
            )],
{
    let n: usize = (dw as usize) * (dh as usize);
    dst.clear();
    dst.resize(n, 0u8);
    let mut dy: u32 = 0;
    while dy < dh
        invariant
            n == (dw as int) * (dh as int),
            dst@.len() == n,
            dy <= dh,
            src@.len() >= (sw as int) * (sh as int),
            (sw as int) * (sh as int) <= u32::MAX,
            (dw as int) * (dh as int) <= u32::MAX,
            dw > 0 && dh > 0 ==> sw > 0 && sh > 0,
            forall|y: int, x: int|
                0 <= y < dy && 0 <= x < dw ==> #[trigger] dst@[pix(dw as int, y, x)] == src@[pix(
                    sw as int,
                    near(y, sh as int, dh as int),
                    near(x, sw as int, dw as int),
                )],
        decreases dh - dy,
    {
        let sy = near_index(dy, sh, dh);
        let mut dx: u32 = 0;
        while dx < dw
            invariant
                n == (dw as int) * (dh as int),
                dst@.len() == n,
                dy < dh,
                dx <= dw,
                sy == near(dy as int, sh as int, dh as int),
                sh > 0 ==> sy < sh,
                src@.len() >= (sw as int) * (sh as int),
                (sw as int) * (sh as int) <= u32::MAX,
                (dw as int) * (dh as int) <= u32::MAX,
                dw > 0 && dh > 0 ==> sw > 0 && sh > 0,
                forall|y: int, x: int|
                    0 <= y < dy && 0 <= x < dw ==> #[trigger] dst@[pix(dw as int, y, x)] == src@[pix(
                        sw as int,
                        near(y, sh as int, dh as int),
                        near(x, sw as int, dw as int),
                    )],
                forall|x: int|
                    0 <= x < dx ==> #[trigger] dst@[pix(dw as int, dy as int, x)] == src@[pix(
                        sw as int,
                        near(dy as int, sh as int, dh as int),
                        near(x, sw as int, dw as int),
                    )],
            decreases dw - dx,
        {
            let sx = near_index(dx, sw, dw);
            proof {
                lemma_inside(sy as int, sx as int, sw as int, sh as int);
                lemma_inside(dy as int, dx as int, dw as int, dh as int);
            }
            let si: u32 = sy * sw + sx;
            let di: u32 = dy * dw + dx;
            let ghost prev = dst@;
            dst.set(di as usize, src[si as usize]);
            proof {
                assert forall|y: int, x: int|
                    0 <= y < dy && 0 <= x < dw implies #[trigger] dst@[pix(dw as int, y, x)] == src@[pix(
                        sw as int,
                        near(y, sh as int, dh as int),
                        near(x, sw as int, dw as int),
                    )] by {
                    lemma_rows_apart(y, x, dy as int, dw as int);
                    assert(dst@[pix(dw as int, y, x)] == prev[pix(dw as int, y, x)]);
                }
                assert forall|x: int|
                    0 <= x < dx + 1 implies #[trigger] dst@[pix(dw as int, dy as int, x)] == src@[pix(
                        sw as int,
                        near(dy as int, sh as int, dh as int),
                        near(x, sw as int, dw as int),
                    )] by {
                    if x < dx {
                        assert(dst@[pix(dw as int, dy as int, x)] == prev[pix(dw as int, dy as int, x)]);
                    }
                }
            }
            dx = dx + 1;
        }
        dy = dy + 1;
    }
}

impl YuvFrame {
    /// The frame scaled to `dw`×`dh` by nearest neighbour, each plane on its
    /// own (the chroma planes at half the width and half the height, rounded
    /// up, on both sides), at the same time.
    pub fn scaled_to(&self, dw: u32, dh: u32) -> (f: YuvFrame)
        requires
            self.y@.len() >= (self.w as int) * (self.h as int),
            self.u@.len() >= chroma_len(self.w, self.h),
            self.v@.len() >= chroma_len(self.w, self.h),
            (self.w as int) * (self.h as int) <= u32::MAX,
            self.h < u32::MAX,
            (dw as int) * (dh as int) <= u32::MAX,
            dh < u32::MAX,
            dw > 0 && dh > 0 ==> self.w > 0 && self.h > 0,
            dw > 1 && dh > 0 ==> self.w > 1,
        ensures
            f.w == dw,
            f.h == dh,
            f.pts == self.pts,
            f.y@.len() == (dw as int) * (dh as int),
            f.u@.len() == chroma_len(dw, dh),
            f.v@.len() == chroma_len(dw, dh),
            forall|y: int, x: int|
                0 <= y < dh && 0 <= x < dw ==> #[trigger] f.y@[pix(dw as int, y, x)] == self.y@[pix(
                    self.w as int,
                    near(y, self.h as int, dh as int),
                    near(x, self.w as int, dw as int),
                )],
            forall|y: int, x: int|
                0 <= y < (dh + 1) / 2 && 0 <= x < dw / 2 ==> #[trigger] f.u@[pix((dw / 2) as int, y, x)]
                    == self.u@[pix(
                    (self.w / 2) as int,
                    near(y, ((self.h + 1) / 2) as int, ((dh + 1) / 2) as int),
                    near(x, (self.w / 2) as int, (dw / 2) as int),
                )],
            forall|y: int, x: int|
                0 <= y < (dh + 1) / 2 && 0 <= x < dw / 2 ==> #[trigger] f.v@[pix((dw / 2) as int, y, x)]
                    == self.v@[pix(
                    (self.w / 2) as int,
                    near(y, ((self.h + 1) / 2) as int, ((dh + 1) / 2) as int),
                    near(x, (self.w / 2) as int, (dw / 2) as int),
                )],
    {
        proof {
            lemma_chroma_le(self.w, self.h);
            lemma_chroma_le(dw, dh);
        }
        let mut y: Vec<u8> = Vec::new();
        let mut u: Vec<u8> = Vec::new();
        let mut v: Vec<u8> = Vec::new();
        resample(self.y.as_slice(), self.w, self.h, &mut y, dw, dh);
        let cw: u32 = self.w / 2;
        let ch: u32 = (self.h + 1) / 2;
        let dcw: u32 = dw / 2;
        let dch: u32 = (dh + 1) / 2;
        resample(self.u.as_slice(), cw, ch, &mut u, dcw, dch);
        resample(self.v.as_slice(), cw, ch, &mut v, dcw, dch);
        YuvFrame { w: dw, h: dh, y, u, v, pts: self.pts }
    }
}

/// Every `--opt` value holds an `=`.
pub open spec fn opts_well_formed(opts: Seq<String>) -> bool {
    forall|i: int| 0 <= i < opts.len() ==> first_index(#[trigger] opts[i]@, '=') is Some
}

/// Splits every `--opt KEY=VALUE` at its first `=`.
pub fn parse_opts(opts: &Vec<String>) -> (r: Vec<(String, String)>)
    requires
        opts_well_formed(opts@),
    ensures
        r.len() == opts.len(),
        forall|i: int|
            0 <= i < opts.len() ==> {
                let k = first_index(#[trigger] opts@[i]@, '=').unwrap();
                &&& r@[i].0@ == opts@[i]@.take(k)
                &&& r@[i].1@ == opts@[i]@.skip(k + 1)
            },
{
    let mut out: Vec<(String, String)> = Vec::new();
    let mut i: usize = 0;
    while i < opts.len()
        invariant
            i <= opts.len(),
            out.len() == i,
            opts_well_formed(opts@),
            forall|j: int|
                0 <= j < i ==> {
                    let k = first_index(#[trigger] opts@[j]@, '=').unwrap();
                    &&& out@[j].0@ == opts@[j]@.take(k)
                    &&& out@[j].1@ == opts@[j]@.skip(k + 1)
                },
        decreases opts.len() - i,
    {
        let c = chars_of(opts[i].as_str());
        let c = c.as_slice();
        assert(c@ == opts@[i as int]@);
        assert(first_index(opts@[i as int]@, '=') is Some);
        let k = match find_char(c, '=') {
            Some(k) => k,
            None => {
                assert(false);
                0
            },
        };
        assert(k < c.len());
        let key = slice_range(c, 0, k);
        let value = slice_range(c, k + 1, c.len());
        assert(key@ =~= opts@[i as int]@.take(k as int));
        assert(value@ =~= opts@[i as int]@.skip(k + 1));
        out.push((string_of(key.as_slice()), string_of(value.as_slice())));
        i = i + 1;
    }
    out
}

/// `i` is the first `--opt` value without `=`.
pub open spec fn is_first_bad_opt(opts: Seq<String>, i: int) -> bool {
    &&& 0 <= i < opts.len()
    &&& first_index(opts[i]@, '=') is None
    &&& forall|j: int| 0 <= j < i ==> first_index(#[trigger] opts[j]@, '=') is Some
}

/// Checks and splits the `--opt KEY=VALUE` values: the first value without
/// `=` is refused as a usage error (`"--opt must be KEY=VALUE"` over the
/// refused value); otherwise every value is split at its
/// first `=`, as `parse_opts` does.
pub fn split_opts(opts: &Vec<String>) -> (r: Result<Vec<(String, String)>, Error>)
    ensures
        opts_well_formed(opts@) ==> (r matches Ok(v) && v.len() == opts.len() && forall|i: int|
            0 <= i < opts.len() ==> {
                let k = first_index(#[trigger] opts@[i]@, '=').unwrap();
                &&& v@[i].0@ == opts@[i]@.take(k)
                &&& v@[i].1@ == opts@[i]@.skip(k + 1)
            }),
        !opts_well_formed(opts@) ==> (r matches Err(e) && chain_code(e@) == USAGE && exists|i: int|
            is_first_bad_opt(opts@, i) && e@ == seq![opt_usage_message(), #[trigger] opts@[i]@]),
{
    let mut i: usize = 0;
    while i < opts.len()
        invariant
            i <= opts.len(),
            forall|j: int| 0 <= j < i ==> first_index(#[trigger] opts@[j]@, '=') is Some,
        decreases opts.len() - i,
    {
        let c = chars_of(opts[i].as_str());
        assert(c@ == opts@[i as int]@);
        if find_char(c.as_slice(), '=').is_none() {
            let e = Error::msg(String::from_str(opts[i].as_str())).context(
                String::from_str("--opt must be KEY=VALUE"),
            );
            proof {
                assert(is_first_bad_opt(opts@, i as int));
                reveal_strlit("--opt must be KEY=VALUE");
                assert(e@ =~= seq![opt_usage_message(), opts@[i as int]@]);
                law_opt_errors_are_usage(opts@[i as int]@);
            }
            return Err(e);
        }
        i = i + 1;
    }
    Ok(parse_opts(opts))
}

/// Whether a subtitle path is SRT (to be converted): its extension is
/// `srt`, ASCII case ignored.
pub fn is_srt(path: &str) -> (r: bool)
    ensures
        r == (path_ext(path@) matches Some(e) && ascii_lower(e) == "srt"@),
{
    match path_extension(path) {
        None => false,
        Some(e) => {
            let c = chars_of(e.as_str());
            let l = crate::text::ascii_lowercase(c.as_slice());
            is_word(l.as_slice(), "srt")
        },
    }
}

/// The codec setup of a transcode.
pub struct TranscodePlan {
    /// The video decoder, `None` when the video is copied.
    pub decoder: Option<DecoderKind>,
    /// The input's codec id was not recognized (the H.264 decoder is tried).
    pub unknown_codec: bool,
    /// Whether H.264 input is length-prefixed (AVCC).
    pub avcc: bool,
    /// The codec id of the output video track.
    pub v_codec_id: String,
    /// The codec id of the output audio track.
    pub a_codec_id: String,
    /// Whether the audio is copied (otherwise it is re-encoded with the
    /// chosen codec).
    pub a_copy: bool,
}

/// Chooses the codecs of a transcode: copying the video needs no decoder,
/// else the decoder follows the input's codec id; the output codec ids
/// follow the requested codecs (the input's own when copying).
pub fn plan(args: &VideoArgs, info: &TrackInfo) -> (r: TranscodePlan)
    ensures
        args.vcodec == VideoCodec::Copy ==> r.decoder is None && !r.unknown_codec,
        args.vcodec != VideoCodec::Copy ==> r.decoder == Some(decoder_for(info.codec_id@).0)
            && r.unknown_codec == !decoder_for(info.codec_id@).1,
        r.avcc == !seq_contains(info.codec_id@, "AVC1"@),
        r.v_codec_id@ == video_codec_id_of(args.vcodec, info.codec_id@),
        r.a_codec_id@ == audio_codec_id_of(args.acodec, info.a_codec_id@),
        r.a_copy == (args.acodec == VideoAudioCodec::Copy),
{
    let avcc = is_avcc(info.codec_id.as_str());
    let (decoder, unknown_codec) = if args.vcodec == VideoCodec::Copy {
        (None, false)
    } else {
        let (k, known) = select_decoder(info.codec_id.as_str());
        (Some(k), !known)
    };
    TranscodePlan {
        decoder,
        unknown_codec,
        avcc,
        v_codec_id: video_codec_id(args.vcodec, info.codec_id.as_str()),
        a_codec_id: audio_codec_id(args.acodec, info.a_codec_id.as_str()),
        a_copy: args.acodec == VideoAudioCodec::Copy,
    }
}

// ─── packets ─────────────────────────────────────────────────────────────────

/// Where a block of the input goes.
#[derive(Debug, Clone, Copy, PartialEq, Eq, Structural)]
pub enum BlockRoute {
    /// A video block kept as it is (video copy).
    CopyVideo,
    /// A video block to decode and re-encode.
    DecodeVideo,
    /// A block of the audio track, kept as it is (audio copy).
    Audio,
    /// A block of the audio track, to be re-encoded with the chosen codec
    /// (the re-encoded packets come in through `on_reencoded`).
    ReencodeAudio,
    /// A block of any other track, dropped.
    Skip,
}

/// The route of a block of `track`; `copy` and `copy_audio` tell whether
/// the video and the audio are copied.
pub open spec fn route_of(track: u64, v_track: u64, a_track: Option<u64>, copy: bool, copy_audio: bool) -> BlockRoute {
    if track == v_track {
        if copy {
            BlockRoute::CopyVideo
        } else {
            BlockRoute::DecodeVideo
        }
    } else if a_track == Some(track) {
        if copy_audio {
            BlockRoute::Audio
        } else {
            BlockRoute::ReencodeAudio
        }
    } else {
        BlockRoute::Skip
    }
}

/// The start of audio packet `i`, in milliseconds, for packets of
/// `frame_len` samples at `rate` Hz.
pub open spec fn audio_pts(i: int, frame_len: u32, rate: u32) -> int {
    (i * frame_len * 1000) / (rate as int)
}

/// Where a block goes: every block of the video track is video, copied
/// exactly when the video is copied; a block of the audio track is audio,
/// kept exactly when the audio is copied; any other block is dropped.
pub proof fn law_block_routes(track: u64, v_track: u64, a_track: Option<u64>, copy: bool, copy_audio: bool)
    ensures
        ({
            let r = route_of(track, v_track, a_track, copy, copy_audio);
            &&& (r == BlockRoute::CopyVideo || r == BlockRoute::DecodeVideo) <==> track == v_track
            &&& r == BlockRoute::CopyVideo <==> track == v_track && copy
            &&& r == BlockRoute::Audio <==> track != v_track && a_track == Some(track) && copy_audio
            &&& r == BlockRoute::ReencodeAudio <==> track != v_track && a_track == Some(track)
                && !copy_audio
            &&& r == BlockRoute::Skip <==> track != v_track && a_track != Some(track)
        }),
{
}

/// Re-encoded audio packets are timed from 0 on, one frame apart and never
/// going back; 960-sample frames at 48 kHz are 20 ms apart.
pub proof fn law_audio_pts_steps(i: int, j: int, frame_len: u32, rate: u32)
    requires
        0 <= i <= j,
        rate > 0,
    ensures
        audio_pts(0, frame_len, rate) == 0,
        audio_pts(i, frame_len, rate) <= audio_pts(j, frame_len, rate),
        audio_pts(i, 960, 48000) == 20 * i,
{
    assert((i * frame_len * 1000) / (rate as int) <= (j * frame_len * 1000) / (rate as int)) by (nonlinear_arith)
        requires
            0 <= i <= j,
            rate > 0,
            frame_len >= 0,
    ;
    assert((i * 960 * 1000) / 48000 == 20 * i) by (nonlinear_arith)
        requires
            0 <= i,
    ;
}

/// The encoded packets gathered while the input is read.
#[derive(Debug)]
pub struct Packets {
    pub v_pkts: Vec<VideoPacket>,
    pub a_pkts: Vec<AudioPacket>,
    /// Timestamp of the current cluster, in milliseconds.
    pub cluster_ts: i64,
}

/// The packets appended after the encoder's flush: each non-empty one at
/// `last + i + 1` (`last` the last video timestamp, 0 without one, `i` its
/// position among the flushed packets), no keyframe.
pub open spec fn flushed(last: i64, f: Seq<Vec<u8>>) -> Seq<(i64, Seq<u8>)>
    decreases f.len(),
{
    if f.len() == 0 {
        Seq::empty()
    } else if f.last().len() == 0 {
        flushed(last, f.drop_last())
    } else {
        flushed(last, f.drop_last()).push(((last + f.len()) as i64, f.last()@))
    }
}

/// The view of video packets as timestamp, data and keyframe flag.
pub open spec fn pkt_view(v: Seq<VideoPacket>) -> Seq<(i64, Seq<u8>, bool)> {
    Seq::new(v.len(), |i: int| (v[i].pts, v[i].data@, v[i].keyframe))
}

/// The timestamp of the last video packet, 0 without one.
pub open spec fn last_pts(v: Seq<VideoPacket>) -> i64 {
    if v.len() == 0 {
        0
    } else {
        v.last().pts
    }
}

impl Packets {
    /// No packets, at time 0.
    pub fn new() -> (r: Packets)
        ensures
            r.v_pkts@.len() == 0,
            r.a_pkts@.len() == 0,
            r.cluster_ts == 0,
    {
        Packets { v_pkts: Vec::new(), a_pkts: Vec::new(), cluster_ts: 0 }
    }

    /// A new cluster starts at `ts` (as `i64`, wrapping like `as`).
    pub fn on_timestamp(&mut self, ts: u64)
        ensures
            final(self).cluster_ts == ts as i64,
            final(self).v_pkts == old(self).v_pkts,
            final(self).a_pkts == old(self).a_pkts,
    {
        self.cluster_ts = #[verifier::truncate] (ts as i64);
    }

    /// Takes one block of the input: its absolute time is the cluster time
    /// plus `rel`; a video block under video copy and an audio block under
    /// audio copy are kept as packets, an audio block to re-encode and a
    /// block of another track are not. Returns the route and
    /// the absolute time.
    pub fn on_block(
        &mut self,
        track: u64,
        rel: i16,
        keyframe: bool,
        data: Vec<u8>,
        v_track: u64,
        a_track: Option<u64>,
        copy: bool,
        copy_audio: bool,
    ) -> (r: (BlockRoute, i64))
        requires
            i64::MIN <= old(self).cluster_ts + rel <= i64::MAX,
        ensures
            r.0 == route_of(track, v_track, a_track, copy, copy_audio),
            r.1 == old(self).cluster_ts + rel,
            final(self).cluster_ts == old(self).cluster_ts,
            r.0 == BlockRoute::CopyVideo ==> pkt_view(final(self).v_pkts@) == pkt_view(
                old(self).v_pkts@,
            ).push((r.1, data@, keyframe)),
            r.0 != BlockRoute::CopyVideo ==> final(self).v_pkts == old(self).v_pkts,
            r.0 == BlockRoute::Audio ==> final(self).a_pkts@.len() == old(self).a_pkts@.len() + 1
                && final(self).a_pkts@.drop_last() == old(self).a_pkts@
                && final(self).a_pkts@.last().pts == r.1
                && final(self).a_pkts@.last().data@ == data@,
            r.0 != BlockRoute::Audio ==> final(self).a_pkts == old(self).a_pkts,
    {
        let abs_pts: i64 = self.cluster_ts + rel as i64;
        if track == v_track {
            if copy {
                let ghost before = self.v_pkts@;
                self.v_pkts.push(VideoPacket { pts: abs_pts, data, keyframe });
                assert(pkt_view(self.v_pkts@) =~= pkt_view(before).push((abs_pts, data@, keyframe)));
                (BlockRoute::CopyVideo, abs_pts)
            } else {
                (BlockRoute::DecodeVideo, abs_pts)
            }
        } else if a_track == Some(track) {
            if !copy_audio {
                return (BlockRoute::ReencodeAudio, abs_pts);
            }
            let ghost before = self.a_pkts@;
            self.a_pkts.push(AudioPacket { pts: abs_pts, data });
            assert(self.a_pkts@.drop_last() =~= before);
            (BlockRoute::Audio, abs_pts)
        } else {
            (BlockRoute::Skip, abs_pts)
        }
    }

    /// Keeps one re-encoded frame as a packet, unless the encoder gave no data.
    pub fn on_encoded(&mut self, pts: i64, data: Vec<u8>, keyframe: bool)
        ensures
            data@.len() > 0 ==> pkt_view(final(self).v_pkts@) == pkt_view(old(self).v_pkts@).push(
                (pts, data@, keyframe),
            ),
            data@.len() == 0 ==> final(self).v_pkts == old(self).v_pkts,
            final(self).a_pkts == old(self).a_pkts,
            final(self).cluster_ts == old(self).cluster_ts,
    {
        if data.len() > 0 {
            let ghost before = self.v_pkts@;
            let ghost d = data@;
            self.v_pkts.push(VideoPacket { pts, data, keyframe });
            assert(pkt_view(self.v_pkts@) =~= pkt_view(before).push((pts, d, keyframe)));
        }
    }

    /// Appends the packets of the re-encoded audio, in order: packet `i`
    /// starts after `i` frames of `frame_len` samples at `rate` Hz, in
    /// milliseconds (`audio_pts`).
    pub fn on_reencoded(&mut self, pkts: Vec<Vec<u8>>, frame_len: u32, rate: u32)
        requires
            rate > 0,
            pkts@.len() * frame_len * 1000 <= i64::MAX,
        ensures
            final(self).a_pkts@.len() == old(self).a_pkts@.len() + pkts@.len(),
            forall|i: int| 0 <= i < old(self).a_pkts@.len() ==> #[trigger] final(self).a_pkts@[i] == old(self).a_pkts@[i],
            forall|i: int|
                0 <= i < pkts@.len() ==> {
                    let p = #[trigger] final(self).a_pkts@[old(self).a_pkts@.len() + i];
                    &&& p.pts == audio_pts(i, frame_len, rate)
                    &&& p.data@ == pkts@[i]@
                },
            final(self).v_pkts == old(self).v_pkts,
            final(self).cluster_ts == old(self).cluster_ts,
    {
        let ghost start = self.a_pkts@;
        let n = pkts.len();
        let mut i: usize = 0;
        while i < n
            invariant
                n == pkts@.len(),
                i <= n,
                rate > 0,
                n * frame_len * 1000 <= i64::MAX,
                self.a_pkts@.len() == start.len() + i,
                forall|j: int| 0 <= j < start.len() ==> #[trigger] self.a_pkts@[j] == start[j],
                forall|j: int|
                    0 <= j < i ==> {
                        let p = #[trigger] self.a_pkts@[start.len() + j];
                        &&& p.pts == audio_pts(j, frame_len, rate)
                        &&& p.data@ == pkts@[j]@
                    },
                self.v_pkts == old(self).v_pkts,
                self.cluster_ts == old(self).cluster_ts,
            decreases n - i,
        {
            assert((i as int) * frame_len * 1000 <= n * frame_len * 1000) by (nonlinear_arith)
                requires
                    i < n,
            ;
            let num: u128 = (i as u128) * (frame_len as u128) * 1000;
            let q: u128 = num / (rate as u128);
            assert(q <= num) by (nonlinear_arith)
                requires
                    q == num / (rate as u128),
                    rate > 0,
            ;
            let pts: i64 = q as i64;
            let data = pkts[i].clone();
            self.a_pkts.push(AudioPacket { pts, data });
            i = i + 1;
        }
    }

    /// Appends the packets that the encoder gave at its flush: after the
    /// last video packet, one millisecond apart by their position, empty
    /// ones dropped.
    pub fn on_flushed(&mut self, pkts: Vec<Vec<u8>>)
        requires
            last_pts(old(self).v_pkts@) + pkts@.len() <= i64::MAX,
            pkts@.len() <= i64::MAX,
        ensures
            pkt_view(final(self).v_pkts@) == pkt_view(old(self).v_pkts@) + flushed(
                last_pts(old(self).v_pkts@),
                pkts@,
            ).map_values(|p: (i64, Seq<u8>)| (p.0, p.1, false)),
            final(self).a_pkts == old(self).a_pkts,
            final(self).cluster_ts == old(self).cluster_ts,
    {
        let last: i64 = if self.v_pkts.len() == 0 {
            0
        } else {
            self.v_pkts[self.v_pkts.len() - 1].pts
        };
        let ghost start = pkt_view(self.v_pkts@);
        let mut i: usize = 0;
        let ghost all = pkts@;
        while i < pkts.len()
            invariant
                i <= pkts.len(),
                pkts@ == all,
                last == last_pts(old(self).v_pkts@),
                last + all.len() <= i64::MAX,
                all.len() <= i64::MAX,
                self.a_pkts == old(self).a_pkts,
                self.cluster_ts == old(self).cluster_ts,
                pkt_view(self.v_pkts@) == start + flushed(last, all.take(i as int)).map_values(
                    |p: (i64, Seq<u8>)| (p.0, p.1, false),
                ),
            decreases pkts.len() - i,
        {
            let ghost before = pkt_view(self.v_pkts@);
            let ghost t = all.take(i + 1);
            assert(t.drop_last() =~= all.take(i as int));
            assert(t.last() == all[i as int]);
            assert(t.len() == i + 1);
            if pkts[i].len() > 0 {
                assert(all[i as int]@.len() > 0);
                let pts: i64 = last + (i as i64) + 1;
                let data = pkts[i].clone();
                let ghost d = data@;
                self.v_pkts.push(VideoPacket { pts, data, keyframe: false });
                assert(pkt_view(self.v_pkts@) =~= before.push((pts, d, false)));
                assert(flushed(last, t) == flushed(last, all.take(i as int)).push(
                    (pts, all[i as int]@),
                ));
                assert(pkt_view(self.v_pkts@) =~= start + flushed(last, t).map_values(
                    |p: (i64, Seq<u8>)| (p.0, p.1, false),
                ));
            } else {
                assert(flushed(last, t) == flushed(last, all.take(i as int)));
            }
            i = i + 1;
        }
        assert(all.take(pkts.len() as int) =~= all);
    }
}

/// The packets that a flush appends all come after the last video packet,
/// in increasing time, none later than `last` plus the number flushed.
pub proof fn law_flushed_order(last: i64, f: Seq<Vec<u8>>)
    requires
        last + f.len() <= i64::MAX,
    ensures
        forall|i: int|
            0 <= i < flushed(last, f).len() ==> last < #[trigger] flushed(last, f)[i].0 <= last
                + f.len(),
        forall|i: int, j: int|
            0 <= i < j < flushed(last, f).len() ==> #[trigger] flushed(last, f)[i].0
                < #[trigger] flushed(last, f)[j].0,
    decreases f.len(),
{
    if f.len() > 0 {
        law_flushed_order(last, f.drop_last());
        let p = flushed(last, f.drop_last());
        if f.last().len() != 0 {
            let q = flushed(last, f);
            assert(q == p.push(((last + f.len()) as i64, f.last()@)));
            assert forall|i: int| 0 <= i < q.len() implies last < #[trigger] q[i].0 <= last + f.len() by {
                if i < p.len() {
                    assert(q[i] == p[i]);
                }
            }
            assert forall|i: int, j: int| 0 <= i < j < q.len() implies #[trigger] q[i].0 < #[trigger] q[j].0 by {
                assert(q[i] == p[i]);
                if j < p.len() {
                    assert(q[j] == p[j]);
                }
            }
        }
    }
}

} // verus!
