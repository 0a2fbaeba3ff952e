//! The command line of `onas`: one argument structure per subcommand, and
//! the rules that turn file extensions and flags into target formats.
//!
//! Paths are held as `String`s; the binary parses the command line and
//! hands these structures over.
use vstd::prelude::*;
use crate::error::Error;
use crate::text::{ascii_lower, ascii_lowercase, chars_eq, chars_of, lemma_ascii_lower_idempotent, slice_range, string_of};

verus! {

// ─── paths ───────────────────────────────────────────────────────────────────

/// The position of the last `c` in `s`, if any.
pub open spec fn last_index_of(s: Seq<char>, c: char) -> Option<int>
    decreases s.len(),
{
    if s.len() == 0 {
        None
    } else if s.last() == c {
        Some(s.len() - 1)
    } else {
        last_index_of(s.drop_last(), c)
    }
}

/// The file name of a Unix path, as `Path::file_name` gives it: its last
/// component, trailing `/` and `.` components skipped; none for an empty
/// path, the root, `.` alone or a last component `..`.
pub open spec fn file_name(p: Seq<char>) -> Option<Seq<char>>
    decreases p.len(),
{
    if p.len() == 0 {
        None
    } else if p.last() == '/' {
        file_name(p.drop_last())
    } else {
        let start: int = match last_index_of(p, '/') {
            Some(i) => i + 1,
            None => 0,
        };
        let seg = p.skip(start);
        if seg == seq!['.'] {
            if start == 0 {
                None
            } else {
                proof {
                    lemma_last_index_bound(p, '/');
                }
                file_name(p.take(start - 1))
            }
        } else if seg == seq!['.', '.'] {
            None
        } else {
            Some(seg)
        }
    }
}

/// The extension of a file name, as `Path::extension` gives it: the text
/// after its last `.`, none without a `.` or when that `.` starts the name.
pub open spec fn name_ext(n: Seq<char>) -> Option<Seq<char>> {
    match last_index_of(n, '.') {
        None => None,
        Some(i) => if i == 0 {
            None
        } else {
            Some(n.skip(i + 1))
        },
    }
}

/// What `Path::extension` gives for the path `p`.
pub open spec fn path_ext(p: Seq<char>) -> Option<Seq<char>> {
    match file_name(p) {
        None => None,
        Some(n) => name_ext(n),
    }
}

/// The last `c` of `s` lies within it.
pub proof fn lemma_last_index_bound(s: Seq<char>, c: char)
    ensures
        match last_index_of(s, c) {
            Some(i) => 0 <= i < s.len() && s[i] == c,
            None => true,
        },
    decreases s.len(),
{
    if s.len() > 0 && s.last() != c {
        lemma_last_index_bound(s.drop_last(), c);
    }
}

fn last_index(s: &[char], end: usize, c: char) -> (r: Option<usize>)
    requires
        end <= s@.len(),
    ensures
        match r {
            Some(i) => last_index_of(s@.take(end as int), c) == Some(i as int),
            None => last_index_of(s@.take(end as int), c) is None,
        },
{
    let mut k: usize = end;
    while k > 0
        invariant
            k <= end <= s@.len(),
            last_index_of(s@.take(end as int), c) == last_index_of(s@.take(k as int), c),
        decreases k,
    {
        assert(s@.take(k as int).last() == s@[k - 1]);
        if s[k - 1] == c {
            return Some(k - 1);
        }
        assert(s@.take(k as int).drop_last() =~= s@.take(k - 1));
        k = k - 1;
    }
    assert(s@.take(0) =~= Seq::<char>::empty());
    None
}

/// `Path::new(p).extension()` as a string, computed on the characters of
/// the path (a `&str` path is UTF-8, and so is every part of it).
pub(crate) fn path_extension(p: &str) -> (r: Option<String>)
    ensures
        r.deep_view() == path_ext(p@),
{
    let c = chars_of(p);
    let s = c.as_slice();
    let mut end: usize = s.len();
    assert(s@.take(end as int) =~= s@);
    loop
        invariant
            end <= s@.len(),
            s@ == p@,
            file_name(s@.take(end as int)) == file_name(p@),
        decreases end,
    {
        let ghost t = s@.take(end as int);
        if end == 0 {
            return None;
        }
        assert(t.last() == s@[end - 1]);
        if s[end - 1] == '/' {
            assert(t.drop_last() =~= s@.take(end - 1));
            end = end - 1;
        } else {
            let start: usize = match last_index(s, end, '/') {
                Some(i) => {
                    proof {
                        lemma_last_index_bound(t, '/');
                    }
                    i + 1
                },
                None => 0,
            };
            let seg = slice_range(s, start, end);
            assert(seg@ =~= t.skip(start as int));
            let is_dot = seg.len() == 1 && seg[0] == '.';
            let is_dots = seg.len() == 2 && seg[0] == '.' && seg[1] == '.';
            assert(is_dot == (seg@ == seq!['.'])) by {
                if seg@ == seq!['.'] {
                    assert(seg@[0] == '.');
                }
                if is_dot {
                    assert(seg@ =~= seq!['.']);
                }
            }
            assert(is_dots == (seg@ == seq!['.', '.'])) by {
                if seg@ == seq!['.', '.'] {
                    assert(seg@[0] == '.' && seg@[1] == '.');
                }
                if is_dots {
                    assert(seg@ =~= seq!['.', '.']);
                }
            }
            if is_dot {
                if start == 0 {
                    return None;
                }
                assert(t.take(start - 1) =~= s@.take(start - 1));
                end = start - 1;
            } else if is_dots {
                return None;
            } else {
                let n = seg.as_slice();
                return match last_index(n, n.len(), '.') {
                    None => {
                        assert(n@.take(n@.len() as int) =~= n@);
                        None
                    },
                    Some(i) => {
                        assert(n@.take(n@.len() as int) =~= n@);
                        proof {
                            lemma_last_index_bound(n@, '.');
                        }
                        if i == 0 {
                            None
                        } else {
                            let e = slice_range(n, i + 1, n.len());
                            assert(e@ =~= n@.skip(i + 1));
                            Some(string_of(e.as_slice()))
                        }
                    },
                };
            }
        }
    }
}

// ─── trusted std calls ───────────────────────────────────────────────────────

/// What `format!("{:?}", s)` writes for a string slice `s`.
pub uninterp spec fn str_debug_text(s: Seq<char>) -> Seq<char>;

/// `s` is made of ASCII letters and digits only.
pub open spec fn is_ascii_alnum_seq(s: Seq<char>) -> bool {
    forall|i: int|
        0 <= i < s.len() ==> {
            let c = #[trigger] s[i];
            ('a' <= c && c <= 'z') || ('A' <= c && c <= 'Z') || ('0' <= c && c <= '9')
        }
}

/// The `Debug` rendering of a string slice: it is quoted, and characters
/// that need it are escaped; ASCII letters and digits are written as they are.
#[verifier::external_body]
pub(crate) fn str_debug(s: &str) -> (r: String)
    ensures
        r@ == str_debug_text(s@),
        is_ascii_alnum_seq(s@) ==> r@ == seq!['"'] + s@ + seq!['"'],
{
    format!("{:?}", s)
}

// ─── argument structures ─────────────────────────────────────────────────────

/// The whole command line.
pub struct Cli {
    pub command: Command,
    /// Also print a machine-readable summary (or error) as the last line.
    pub json: bool,
}

/// The subcommands.
pub enum Command {
    /// Convert between image formats.
    Image(ImageArgs),
    /// Transcode audio files.
    Audio(AudioArgs),
    /// Transcode video files (MKV container).
    Video(VideoArgs),
    /// Extract a single still frame from a video.
    Frame(FrameArgs),
    /// Read or edit file metadata.
    Meta(MetaArgs),
}

/// Arguments of `onas image`.
pub struct ImageArgs {
    /// Input file.
    pub input: String,
    /// Output file; its extension sets the target format.
    pub output: String,
    /// Encode quality 1–100 (JPEG / WebP lossy / AVIF); 90 by default.
    pub quality: u8,
    /// Force lossless encoding (WebP, JXL).
    pub lossless: bool,
    /// Resize: `WIDTHxHEIGHT`, 0 for one dimension keeps the aspect ratio.
    pub resize: Option<String>,
}

/// Audio output formats.
#[derive(Clone, Copy, Debug, PartialEq, Eq, Structural)]
pub enum AudioFmt {
    Flac,
    Opus,
    /// AAC wrapped in an M4A container.
    M4a,
}

/// Arguments of `onas audio`.
pub struct AudioArgs {
    /// Input file (FLAC, Opus, M4A/AAC, MP3, OGG, WAV, …).
    pub input: String,
    /// Output file; its extension sets the format unless `format` is given.
    pub output: String,
    /// Forced output format.
    pub format: Option<AudioFmt>,
    /// Bitrate in kbps for lossy codecs (Opus, AAC); 192 by default.
    pub bitrate: u32,
    /// FLAC compression level 0–8; 5 by default.
    pub compression: u8,
}

/// Still-frame output formats.
#[derive(Clone, Copy, Debug, PartialEq, Eq, Structural)]
pub enum FrameFmt {
    Png,
    Jpeg,
}

/// Arguments of `onas frame`.
pub struct FrameArgs {
    /// Input video file.
    pub input: String,
    /// Output image file; its extension sets the format unless `format` is given.
    pub output: String,
    /// Seek target as a timestamp: seconds (`12.5`) or `[H:]MM:SS[.mmm]`.
    pub at: Option<String>,
    /// Seek target as a zero-based decoded-frame index.
    pub at_frame: Option<u64>,
    /// Forced output image format.
    pub format: Option<FrameFmt>,
    /// JPEG quality 1–100; 90 by default.
    pub quality: u8,
    /// Resize the extracted frame: `WIDTHxHEIGHT`, 0 keeps the aspect ratio.
    pub resize: Option<String>,
}

/// Arguments of `onas meta`.
pub struct MetaArgs {
    /// File to inspect or edit.
    pub file: String,
    /// Print all metadata (read-only).
    pub dump: bool,
    /// Tag fields to set, each `KEY=VALUE`.
    pub set: Vec<String>,
    /// Tag fields to remove, by key.
    pub remove: Vec<String>,
    /// Strip all metadata from the file.
    pub strip: bool,
}

/// Video codecs of the output.
#[derive(Clone, Copy, Debug, PartialEq, Eq, Structural)]
pub enum VideoCodec {
    H264,
    H265,
    Vp9,
    Av1,
    /// Copy the stream without re-encoding.
    Copy,
}

/// Audio codecs of a video's output.
#[derive(Clone, Copy, Debug, PartialEq, Eq, Structural)]
pub enum VideoAudioCodec {
    Opus,
    Aac,
    Flac,
    /// Copy the stream without re-encoding.
    Copy,
}

/// Arguments of `onas video`.
pub struct VideoArgs {
    /// Input file.
    pub input: String,
    /// Output file; must be `.mkv`.
    pub output: String,
    /// Video codec of the output; H.264 by default.
    pub vcodec: VideoCodec,
    /// Audio codec of the output; Opus by default.
    pub acodec: VideoAudioCodec,
    /// CRF quality factor (lower is better); 23 by default.
    pub crf: u8,
    /// Maximum video bitrate in kbps.
    pub vbitrate: Option<u32>,
    /// Audio bitrate in kbps for lossy codecs; 192 by default.
    pub abitrate: u32,
    /// Resize: `WIDTHxHEIGHT`, 0 for one dimension keeps the aspect ratio.
    pub resize: Option<String>,
    /// Subtitle file (`.ass` or `.srt`) to embed as a track.
    pub sub: Option<String>,
    /// Burn the subtitles into the frames (requires `sub`).
    pub hardsub: bool,
    /// Number of encoding threads (0 = auto).
    pub threads: usize,
    /// Extra encoder options, each `KEY=VALUE`.
    pub opts: Vec<String>,
}

// ─── format detection ────────────────────────────────────────────────────────

/// The `Debug` rendering of an `Option<&str>`.
pub open spec fn opt_debug_text(o: Option<Seq<char>>) -> Seq<char> {
    match o {
        None => "None"@,
        Some(s) => "Some("@ + str_debug_text(s) + ")"@,
    }
}

/// `format!("{:?}", o)` for an optional string.
pub fn opt_debug(o: Option<&str>) -> (r: String)
    ensures
        r@ == opt_debug_text(match o {
            None => None,
            Some(s) => Some(s@),
        }),
{
    match o {
        None => String::from_str("None"),
        Some(s) => {
            let mut out = String::from_str("Some(");
            let d = str_debug(s);
            out.append(d.as_str());
            out.append(")");
            out
        },
    }
}

/// The lower-cased extension, as `.map(|e| e.to_ascii_lowercase())` gives it.
pub open spec fn lower_ext(e: Option<Seq<char>>) -> Option<Seq<char>> {
    match e {
        None => None,
        Some(s) => Some(ascii_lower(s)),
    }
}

/// The audio format that an extension names, if any.
pub open spec fn audio_fmt_of(e: Option<Seq<char>>) -> Option<AudioFmt> {
    match lower_ext(e) {
        Some(l) => if l == "flac"@ {
            Some(AudioFmt::Flac)
        } else if l == "opus"@ {
            Some(AudioFmt::Opus)
        } else if l == "m4a"@ || l == "aac"@ {
            Some(AudioFmt::M4a)
        } else {
            None
        },
        None => None,
    }
}

/// The error of a failed audio format detection: the phrase, then the
/// lower-cased extension.
pub open spec fn audio_ext_error(e: Option<Seq<char>>) -> Seq<Seq<char>> {
    seq!["Cannot detect audio format from extension"@, opt_debug_text(lower_ext(e)) + "; use --format"@]
}

/// The still-image format that an extension names, if any.
pub open spec fn frame_fmt_of(e: Option<Seq<char>>) -> Option<FrameFmt> {
    match lower_ext(e) {
        Some(l) => if l == "png"@ {
            Some(FrameFmt::Png)
        } else if l == "jpg"@ || l == "jpeg"@ {
            Some(FrameFmt::Jpeg)
        } else {
            None
        },
        None => None,
    }
}

/// The error of a failed image format detection: the phrase, then the
/// lower-cased extension.
pub open spec fn frame_ext_error(e: Option<Seq<char>>) -> Seq<Seq<char>> {
    seq!["Cannot detect image format from extension"@, opt_debug_text(lower_ext(e)) + "; use --format"@]
}

/// `ext` lower-cased, as an owned string.
fn lowered(ext: &str) -> (r: Vec<char>)
    ensures
        r@ == ascii_lower(ext@),
{
    let c = chars_of(ext);
    ascii_lowercase(c.as_slice())
}

/// Whether the characters `l` spell the literal `w`.
pub fn is_word(l: &[char], w: &str) -> (r: bool)
    ensures
        r == (l@ == w@),
{
    let wc = chars_of(w);
    chars_eq(l, wc.as_slice())
}

/// The audio format that an output extension selects; the error names the
/// lower-cased extension.
pub fn audio_fmt_from_ext(ext: Option<&str>) -> (r: Result<AudioFmt, Error>)
    ensures
        ({
            let e = match ext {
                None => None,
                Some(s) => Some(s@),
            };
            match audio_fmt_of(e) {
                Some(f) => r == Ok::<AudioFmt, Error>(f),
                None => r matches Err(err) && err@ == audio_ext_error(e),
            }
        }),
{
    let lowered_ext: Option<String> = match ext {
        None => None,
        Some(s) => {
            let l = lowered(s);
            if is_word(l.as_slice(), "flac") {
                return Ok(AudioFmt::Flac);
            }
            if is_word(l.as_slice(), "opus") {
                return Ok(AudioFmt::Opus);
            }
            if is_word(l.as_slice(), "m4a") || is_word(l.as_slice(), "aac") {
                return Ok(AudioFmt::M4a);
            }
            Some(crate::text::string_of(l.as_slice()))
        },
    };
    let mut d = match &lowered_ext {
        None => opt_debug(None),
        Some(l) => opt_debug(Some(l.as_str())),
    };
    d.append("; use --format");
    Err(Error::detailed("Cannot detect audio format from extension", d))
}

/// The still-image format that an output extension selects; the error names
/// the lower-cased extension.
pub fn frame_fmt_from_ext(ext: Option<&str>) -> (r: Result<FrameFmt, Error>)
    ensures
        ({
            let e = match ext {
                None => None,
                Some(s) => Some(s@),
            };
            match frame_fmt_of(e) {
                Some(f) => r == Ok::<FrameFmt, Error>(f),
                None => r matches Err(err) && err@ == frame_ext_error(e),
            }
        }),
{
    let lowered_ext: Option<String> = match ext {
        None => None,
        Some(s) => {
            let l = lowered(s);
            if is_word(l.as_slice(), "png") {
                return Ok(FrameFmt::Png);
            }
            if is_word(l.as_slice(), "jpg") || is_word(l.as_slice(), "jpeg") {
                return Ok(FrameFmt::Jpeg);
            }
            Some(crate::text::string_of(l.as_slice()))
        },
    };
    let mut d = match &lowered_ext {
        None => opt_debug(None),
        Some(l) => opt_debug(Some(l.as_str())),
    };
    d.append("; use --format");
    Err(Error::detailed("Cannot detect image format from extension", d))
}

/// The extension of `p` as an optional string slice.
fn ext_ref(e: &Option<String>) -> (r: Option<&str>)
    ensures
        match r {
            None => e.deep_view() == None::<Seq<char>>,
            Some(s) => e.deep_view() == Some(s@),
        },
{
    match e {
        None => None,
        Some(s) => Some(s.as_str()),
    }
}

impl AudioArgs {
    /// The target format: `format` when given, else the one that the output
    /// extension names.
    pub fn target_fmt(&self) -> (r: Result<AudioFmt, Error>)
        ensures
            self.format matches Some(f) ==> r == Ok::<AudioFmt, Error>(f),
            self.format is None ==> match audio_fmt_of(path_ext(self.output@)) {
                Some(f) => r == Ok::<AudioFmt, Error>(f),
                None => r matches Err(err) && err@ == audio_ext_error(path_ext(self.output@)),
            },
    {
        if let Some(f) = self.format {
            return Ok(f);
        }
        let e = path_extension(self.output.as_str());
        audio_fmt_from_ext(ext_ref(&e))
    }
}

impl FrameArgs {
    /// The target image format: `format` when given, else the one that the
    /// output extension names.
    pub fn target_fmt(&self) -> (r: Result<FrameFmt, Error>)
        ensures
            self.format matches Some(f) ==> r == Ok::<FrameFmt, Error>(f),
            self.format is None ==> match frame_fmt_of(path_ext(self.output@)) {
                Some(f) => r == Ok::<FrameFmt, Error>(f),
                None => r matches Err(err) && err@ == frame_ext_error(path_ext(self.output@)),
            },
    {
        if let Some(f) = self.format {
            return Ok(f);
        }
        let e = path_extension(self.output.as_str());
        frame_fmt_from_ext(ext_ref(&e))
    }
}

/// The audio and still-image formats of an extension do not depend on
/// its ASCII case.
pub proof fn law_target_ignores_case(e: Seq<char>)
    ensures
        audio_fmt_of(Some(e)) == audio_fmt_of(Some(ascii_lower(e))),
        frame_fmt_of(Some(e)) == frame_fmt_of(Some(ascii_lower(e))),
{
    lemma_ascii_lower_idempotent(e);
}

/// The output extensions that select an audio format, whatever their case:
/// `flac` selects FLAC, `opus` Opus, and `m4a` or `aac` M4A; no other does.
pub proof fn law_audio_extensions_select(e: Seq<char>)
    ensures
        audio_fmt_of(Some(e)) == Some(AudioFmt::Flac) <==> ascii_lower(e) == "flac"@,
        audio_fmt_of(Some(e)) == Some(AudioFmt::Opus) <==> ascii_lower(e) == "opus"@,
        audio_fmt_of(Some(e)) == Some(AudioFmt::M4a) <==> (ascii_lower(e) == "m4a"@ || ascii_lower(e)
            == "aac"@),
{
    reveal_strlit("flac");
    reveal_strlit("opus");
    reveal_strlit("m4a");
    reveal_strlit("aac");
    assert("flac"@.len() == 4 && "flac"@[0] == 'f' && "flac"@[1] == 'l');
    assert("opus"@.len() == 4 && "opus"@[0] == 'o' && "opus"@[1] == 'p');
    assert("m4a"@.len() == 3 && "m4a"@[0] == 'm' && "m4a"@[1] == '4');
    assert("aac"@.len() == 3 && "aac"@[0] == 'a' && "aac"@[1] == 'a');
}

/// The output extensions that select a still-image format, whatever their
/// case: `png` selects PNG, `jpg` or `jpeg` JPEG; no other does.
pub proof fn law_frame_extensions_select(e: Seq<char>)
    ensures
        frame_fmt_of(Some(e)) == Some(FrameFmt::Png) <==> ascii_lower(e) == "png"@,
        frame_fmt_of(Some(e)) == Some(FrameFmt::Jpeg) <==> (ascii_lower(e) == "jpg"@ || ascii_lower(e)
            == "jpeg"@),
{
    reveal_strlit("png");
    reveal_strlit("jpg");
    reveal_strlit("jpeg");
    assert("png"@.len() == 3 && "png"@[0] == 'p' && "png"@[1] == 'n');
    assert("jpg"@.len() == 3 && "jpg"@[0] == 'j' && "jpg"@[1] == 'p');
    assert("jpeg"@.len() == 4 && "jpeg"@[0] == 'j' && "jpeg"@[1] == 'p');
}

} // verus!
