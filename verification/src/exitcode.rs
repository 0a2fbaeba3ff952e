//! Standard process exit codes.
//!
//! `onas` is driven both interactively and as a subprocess by other tools.
//! Callers that only see the exit status need to tell "bad input" apart
//! from "bad arguments" apart from "codec failed" without reading log text.
//! These codes are a stable contract, loosely following the BSD
//! `sysexits.h` convention.
use vstd::prelude::*;
use crate::error::Error;
use crate::cli::{audio_ext_error, frame_ext_error};
use crate::image::{decoded, dims_result, unknown_ext_error, DecodeStep};
use crate::meta::{class_error, key_value_result, set_prefix, unknown_key_error, Class, TagKind};
use crate::video::mkv_error;
use crate::text::{ascii_lower, ascii_lowercase, chars_of, contains, occurs_at, seq_contains, seq_starts_with, starts_with};

verus! {

/// Success.
pub const OK: i32 = 0;

/// Catch-all for errors that fit no more specific code below.
pub const GENERAL_ERROR: i32 = 1;

/// Command-line usage error: missing or invalid arguments, bad flag
/// combinations, unparseable values. `EX_USAGE`.
pub const USAGE: i32 = 64;

/// Input data was the wrong kind, malformed, or otherwise unusable.
/// `EX_DATAERR`.
pub const DATA_ERROR: i32 = 65;

/// The input file could not be opened or read at all. `EX_NOINPUT`.
pub const NO_INPUT: i32 = 66;

/// The output path could not be created or written. `EX_CANTCREAT`.
pub const CANT_CREATE_OUTPUT: i32 = 73;

/// A codec could not be initialized or failed mid-stream. `EX_SOFTWARE`.
pub const CODEC_ERROR: i32 = 70;

/// Feature recognized but intentionally unimplemented. `EX_UNAVAILABLE`.
pub const UNIMPLEMENTED: i32 = 69;

/// The exit code that one message of an error chain selects, if any; the
/// phrases are looked for in the ASCII-lower-cased message, in this order.
pub open spec fn cause_code(m: Seq<char>) -> Option<i32> {
    let l = ascii_lower(m);
    if seq_contains(l, "not yet implemented"@) {
        Some(UNIMPLEMENTED)
    } else if seq_starts_with(l, "reading "@) || seq_starts_with(l, "opening "@) {
        Some(NO_INPUT)
    } else if seq_starts_with(l, "writing "@) || seq_starts_with(l, "creating "@) {
        Some(CANT_CREATE_OUTPUT)
    } else if seq_contains(l, "no video track"@) || seq_contains(l, "no audio track"@)
        || seq_contains(l, "no codec params"@) || seq_contains(l, "not audio codec params"@)
        || seq_contains(l, "video track missing"@) {
        Some(DATA_ERROR)
    } else if seq_contains(l, "decode"@) || seq_contains(l, "encode"@) || seq_contains(l, "encoder"@)
        || seq_contains(l, "decoder"@) || seq_contains(l, "codec"@) {
        Some(CODEC_ERROR)
    } else if seq_contains(l, "must be"@) || seq_contains(l, "cannot detect"@) || seq_contains(
        l,
        "cannot determine"@,
    ) || seq_contains(l, "cannot be combined"@) || seq_contains(l, "not a recognized"@)
        || seq_contains(l, "unknown"@) || seq_contains(
        l,
        "invalid"@,
    ) || seq_contains(l, "requires --"@) {
        Some(USAGE)
    } else if seq_contains(l, "parse"@) || seq_contains(l, "malformed"@) || seq_contains(
        l,
        "bad pixel buffer"@,
    ) || seq_contains(l, "bad buffer"@) || seq_contains(l, "missing"@) {
        Some(DATA_ERROR)
    } else {
        None
    }
}

/// The exit code of an error chain: that of the first message, outermost
/// first, that selects one; `GENERAL_ERROR` when none does.
pub open spec fn chain_code(c: Seq<Seq<char>>) -> i32
    decreases c.len(),
{
    if c.len() == 0 {
        GENERAL_ERROR
    } else {
        match cause_code(c[0]) {
            Some(k) => k,
            None => chain_code(c.drop_first()),
        }
    }
}

/// The exit codes that stand for a failure.
pub open spec fn is_failure_code(k: i32) -> bool {
    k == GENERAL_ERROR || k == USAGE || k == DATA_ERROR || k == NO_INPUT
        || k == CANT_CREATE_OUTPUT || k == CODEC_ERROR || k == UNIMPLEMENTED
}

fn has(l: &[char], needle: &str) -> (r: bool)
    ensures
        r == seq_contains(l@, needle@),
{
    let n = chars_of(needle);
    contains(l, n.as_slice())
}

fn begins(l: &[char], needle: &str) -> (r: bool)
    ensures
        r == seq_starts_with(l@, needle@),
{
    let n = chars_of(needle);
    starts_with(l, n.as_slice())
}

/// The exit code that one message selects, if any.
pub fn message_code(m: &str) -> (r: Option<i32>)
    ensures
        r == cause_code(m@),
{
    let chars = chars_of(m);
    let lv = ascii_lowercase(chars.as_slice());
    let l = lv.as_slice();
    if has(l, "not yet implemented") {
        return Some(UNIMPLEMENTED);
    }
    if begins(l, "reading ") || begins(l, "opening ") {
        return Some(NO_INPUT);
    }
    if begins(l, "writing ") || begins(l, "creating ") {
        return Some(CANT_CREATE_OUTPUT);
    }
    if has(l, "no video track") || has(l, "no audio track") || has(l, "no codec params") || has(
        l,
        "not audio codec params",
    ) || has(l, "video track missing") {
        return Some(DATA_ERROR);
    }
    if has(l, "decode") || has(l, "encode") || has(l, "encoder") || has(l, "decoder") || has(
        l,
        "codec",
    ) {
        return Some(CODEC_ERROR);
    }
    if has(l, "must be") || has(l, "cannot detect") || has(l, "cannot determine") || has(
        l,
        "cannot be combined",
    ) || has(l, "not a recognized") || has(l, "unknown") || has(l, "invalid") || has(l, "requires --") {
        return Some(USAGE);
    }
    if has(l, "parse") || has(l, "malformed") || has(l, "bad pixel buffer") || has(
        l,
        "bad buffer",
    ) || has(l, "missing") {
        return Some(DATA_ERROR);
    }
    None
}

/// Classifies an error into one of the exit codes above by the phrases in
/// its chain of messages, outermost first; an error that matches nothing
/// gives `GENERAL_ERROR`.
pub fn classify(err: &Error) -> (code: i32)
    ensures
        code == chain_code(err@),
        is_failure_code(code),
{
    let mut i: usize = 0;
    assert(err@.skip(0) =~= err@);
    while i < err.chain.len()
        invariant
            i <= err.chain.len(),
            chain_code(err@) == chain_code(err@.skip(i as int)),
        decreases err.chain.len() - i,
    {
        let m = err.chain[i].as_str();
        assert(err@[i as int] == m@);
        match message_code(m) {
            Some(k) => {
                proof {
                    assert(err@.skip(i as int)[0] == err@[i as int]);
                    lemma_chain_code_failure(err@);
                }
                return k;
            },
            None => {
                assert(err@.skip(i as int).drop_first() =~= err@.skip(i + 1));
            },
        }
        i = i + 1;
    }
    proof {
        assert(err@.skip(i as int).len() == 0);
    }
    GENERAL_ERROR
}

// ─── which messages select which code ────────────────────────────────────────

/// `h` holds no run of the five characters `a b c d e`.
pub open spec fn no_run(h: Seq<char>, a: char, b: char, c: char, d: char, e: char) -> bool {
    forall|i: int|
        0 <= i && i + 5 <= h.len() ==> !(#[trigger] h[i] == a && h[i + 1] == b && h[i + 2] == c
            && h[i + 3] == d && h[i + 4] == e)
}

/// `h` does not begin with the two characters `a b`.
pub open spec fn not_begun(h: Seq<char>, a: char, b: char) -> bool {
    h.len() < 2 || h[0] != a || h[1] != b
}

/// None of the phrases tested before the usage phrases occurs in the
/// lower-cased message `l`: checked on the first five characters of each
/// phrase (or the first two for the prefix tests).
pub open spec fn clear_before_usage(l: Seq<char>) -> bool {
    &&& no_run(l, 'n', 'o', 't', ' ', 'y')
    &&& not_begun(l, 'r', 'e') && not_begun(l, 'o', 'p')
    &&& not_begun(l, 'w', 'r') && not_begun(l, 'c', 'r')
    &&& no_run(l, 'n', 'o', ' ', 'v', 'i') && no_run(l, 'n', 'o', ' ', 'a', 'u')
    &&& no_run(l, 'n', 'o', ' ', 'c', 'o') && no_run(l, 'o', 't', ' ', 'a', 'u')
    &&& no_run(l, 'v', 'i', 'd', 'e', 'o')
    &&& no_run(l, 'd', 'e', 'c', 'o', 'd') && no_run(l, 'e', 'n', 'c', 'o', 'd')
    &&& no_run(l, 'c', 'o', 'd', 'e', 'c')
}

/// None of the usage phrases occurs in `l` (checked on their first five
/// characters).
pub open spec fn clear_of_usage(l: Seq<char>) -> bool {
    &&& no_run(l, 'm', 'u', 's', 't', ' ') && no_run(l, 'c', 'a', 'n', 'n', 'o')
    &&& no_run(l, 'n', 'o', 't', ' ', 'a') && no_run(l, 'u', 'n', 'k', 'n', 'o')
    &&& no_run(l, 'i', 'n', 'v', 'a', 'l') && no_run(l, 'r', 'e', 'q', 'u', 'i')
}

proof fn lemma_absent(h: Seq<char>, n: Seq<char>)
    requires
        n.len() >= 5,
        no_run(h, n[0], n[1], n[2], n[3], n[4]),
    ensures
        !seq_contains(h, n),
{
    if seq_contains(h, n) {
        let i = choose|i: int| occurs_at(h, n, i);
        let w = h.subrange(i, i + n.len());
        assert(w[0] == h[i] && w[1] == h[i + 1] && w[2] == h[i + 2] && w[3] == h[i + 3] && w[4]
            == h[i + 4]);
    }
}

proof fn lemma_absent_from(h: Seq<char>, n: Seq<char>, j: int)
    requires
        0 <= j && j + 5 <= n.len(),
        no_run(h, n[j], n[j + 1], n[j + 2], n[j + 3], n[j + 4]),
    ensures
        !seq_contains(h, n),
{
    if seq_contains(h, n) {
        let i = choose|i: int| occurs_at(h, n, i);
        let w = h.subrange(i, i + n.len());
        assert(w[j] == h[i + j] && w[j + 1] == h[i + j + 1] && w[j + 2] == h[i + j + 2] && w[j + 3]
            == h[i + j + 3] && w[j + 4] == h[i + j + 4]);
    }
}

proof fn lemma_not_begun(h: Seq<char>, n: Seq<char>)
    requires
        n.len() >= 2,
        not_begun(h, n[0], n[1]),
    ensures
        !seq_starts_with(h, n),
{
    if seq_starts_with(h, n) {
        let w = h.subrange(0, n.len() as int);
        assert(w[0] == h[0] && w[1] == h[1]);
    }
}

proof fn lemma_clear_before_usage(l: Seq<char>)
    requires
        clear_before_usage(l),
    ensures
        !seq_contains(l, "not yet implemented"@),
        !seq_starts_with(l, "reading "@) && !seq_starts_with(l, "opening "@),
        !seq_starts_with(l, "writing "@) && !seq_starts_with(l, "creating "@),
        !seq_contains(l, "no video track"@) && !seq_contains(l, "no audio track"@),
        !seq_contains(l, "no codec params"@) && !seq_contains(l, "not audio codec params"@),
        !seq_contains(l, "video track missing"@),
        !seq_contains(l, "decode"@) && !seq_contains(l, "encode"@) && !seq_contains(l, "encoder"@),
        !seq_contains(l, "decoder"@) && !seq_contains(l, "codec"@),
{
    reveal_strlit("not yet implemented");
    reveal_strlit("reading ");
    reveal_strlit("opening ");
    reveal_strlit("writing ");
    reveal_strlit("creating ");
    reveal_strlit("no video track");
    reveal_strlit("no audio track");
    reveal_strlit("no codec params");
    reveal_strlit("not audio codec params");
    reveal_strlit("video track missing");
    reveal_strlit("decode");
    reveal_strlit("encode");
    reveal_strlit("encoder");
    reveal_strlit("decoder");
    reveal_strlit("codec");
    lemma_absent(l, "not yet implemented"@);
    lemma_not_begun(l, "reading "@);
    lemma_not_begun(l, "opening "@);
    lemma_not_begun(l, "writing "@);
    lemma_not_begun(l, "creating "@);
    lemma_absent(l, "no video track"@);
    lemma_absent(l, "no audio track"@);
    lemma_absent(l, "no codec params"@);
    lemma_absent_from(l, "not audio codec params"@, 1);
    lemma_absent(l, "video track missing"@);
    lemma_absent(l, "decode"@);
    lemma_absent(l, "encode"@);
    lemma_absent(l, "encoder"@);
    lemma_absent(l, "decoder"@);
    lemma_absent(l, "codec"@);
}

/// A message in which no earlier phrase occurs and a usage phrase does
/// selects `USAGE`.
proof fn lemma_selects_usage(m: Seq<char>)
    requires
        clear_before_usage(ascii_lower(m)),
        seq_contains(ascii_lower(m), "must be"@) || seq_contains(ascii_lower(m), "invalid"@)
            || seq_contains(ascii_lower(m), "cannot be combined"@) || seq_contains(
            ascii_lower(m),
            "cannot detect"@,
        ) || seq_contains(ascii_lower(m), "cannot determine"@) || seq_contains(
            ascii_lower(m),
            "not a recognized"@,
        ) || seq_contains(ascii_lower(m), "unknown"@),
    ensures
        cause_code(m) == Some(USAGE),
{
    lemma_clear_before_usage(ascii_lower(m));
}

/// A message in which no earlier phrase occurs and `"malformed"` or
/// `"parse"` does selects `DATA_ERROR`.
proof fn lemma_selects_data(m: Seq<char>)
    requires
        clear_before_usage(ascii_lower(m)),
        clear_of_usage(ascii_lower(m)),
        seq_contains(ascii_lower(m), "malformed"@) || seq_contains(ascii_lower(m), "parse"@),
    ensures
        cause_code(m) == Some(DATA_ERROR),
{
    let l = ascii_lower(m);
    lemma_clear_before_usage(l);
    reveal_strlit("must be");
    reveal_strlit("cannot detect");
    reveal_strlit("cannot determine");
    reveal_strlit("cannot be combined");
    reveal_strlit("not a recognized");
    reveal_strlit("unknown");
    reveal_strlit("invalid");
    reveal_strlit("requires --");
    lemma_absent(l, "must be"@);
    lemma_absent(l, "cannot detect"@);
    lemma_absent(l, "cannot determine"@);
    lemma_absent(l, "cannot be combined"@);
    lemma_absent(l, "not a recognized"@);
    lemma_absent(l, "unknown"@);
    lemma_absent(l, "invalid"@);
    lemma_absent(l, "requires --"@);
}

proof fn lemma_present(h: Seq<char>, n: Seq<char>, i: int)
    requires
        0 <= i && i + n.len() <= h.len(),
        h.subrange(i, i + n.len()) =~= n,
    ensures
        seq_contains(h, n),
{
    assert(occurs_at(h, n, i));
}

/// The message of a refused `--opt`; the refused text follows it in the
/// chain.
pub open spec fn opt_usage_message() -> Seq<char> {
    "--opt must be KEY=VALUE"@
}

/// A refused `--opt` is a usage error, whatever its text.
pub proof fn law_opt_errors_are_usage(kv: Seq<char>)
    ensures
        chain_code(seq![opt_usage_message(), kv]) == USAGE,
{
    reveal_strlit("--opt must be KEY=VALUE");
    reveal_strlit("--opt must be key=value");
    reveal_strlit("must be");
    assert(ascii_lower("--opt must be KEY=VALUE"@) =~= "--opt must be key=value"@);
    lemma_present(ascii_lower("--opt must be KEY=VALUE"@), "must be"@, 6);
    lemma_selects_usage("--opt must be KEY=VALUE"@);
}

/// A decoder's refusal of an image's bytes is an input data error, for
/// every decoder and every step.
pub proof fn law_decoder_failures_are_data_errors(
    raw: Result<(u32, u32, Seq<u8>), (DecodeStep, Seq<char>)>,
    label: Seq<char>,
)
    ensures
        match decoded(raw, label) {
            Err(c) => chain_code(c) == DATA_ERROR,
            Ok(_) => true,
        },
{
    reveal_strlit("malformed input");
    reveal_strlit("malformed");
    assert(ascii_lower("malformed input"@) =~= "malformed input"@);
    lemma_present(ascii_lower("malformed input"@), "malformed"@, 0);
    lemma_selects_data("malformed input"@);
}

/// Refusing `--strip` together with `--set` or `--remove` is a usage error.
pub proof fn law_strip_combination_is_usage()
    ensures
        chain_code(seq!["--strip cannot be combined with --set or --remove"@]) == USAGE,
{
    reveal_strlit("--strip cannot be combined with --set or --remove");
    reveal_strlit("cannot be combined");
    let m = "--strip cannot be combined with --set or --remove"@;
    assert(ascii_lower(m) =~= m);
    lemma_present(ascii_lower(m), "cannot be combined"@, 8);
    lemma_selects_usage(m);
}

/// Every `--resize` value that `onas image` or `onas video` refuses is a
/// usage error: each message that parsing it can give selects `USAGE`.
pub proof fn law_resize_errors_are_usage(s: Seq<char>)
    ensures
        match dims_result(s, "--resize must be WIDTHxHEIGHT, e.g. 1920x1080 or 1920x0"@) {
            Err(c) => chain_code(c) == USAGE,
            Ok(_) => true,
        },
        match dims_result(s, "--resize must be WIDTHxHEIGHT e.g. 1280x720 or 0x1080"@) {
            Err(c) => chain_code(c) == USAGE,
            Ok(_) => true,
        },
{
    reveal_strlit("must be");
    reveal_strlit("invalid");
    reveal_strlit("--resize must be WIDTHxHEIGHT, e.g. 1920x1080 or 1920x0");
    reveal_strlit("--resize must be widthxheight, e.g. 1920x1080 or 1920x0");
    let a = "--resize must be WIDTHxHEIGHT, e.g. 1920x1080 or 1920x0"@;
    assert(ascii_lower(a) =~= "--resize must be widthxheight, e.g. 1920x1080 or 1920x0"@);
    lemma_present(ascii_lower(a), "must be"@, 9);
    lemma_selects_usage(a);
    reveal_strlit("--resize must be WIDTHxHEIGHT e.g. 1280x720 or 0x1080");
    reveal_strlit("--resize must be widthxheight e.g. 1280x720 or 0x1080");
    let b = "--resize must be WIDTHxHEIGHT e.g. 1280x720 or 0x1080"@;
    assert(ascii_lower(b) =~= "--resize must be widthxheight e.g. 1280x720 or 0x1080"@);
    lemma_present(ascii_lower(b), "must be"@, 9);
    lemma_selects_usage(b);
    reveal_strlit("invalid width");
    let c = "invalid width"@;
    assert(ascii_lower(c) =~= c);
    lemma_present(ascii_lower(c), "invalid"@, 0);
    lemma_selects_usage(c);
    reveal_strlit("invalid height");
    let d = "invalid height"@;
    assert(ascii_lower(d) =~= d);
    lemma_present(ascii_lower(d), "invalid"@, 0);
    lemma_selects_usage(d);
    reveal_strlit("--resize: at least one dimension must be non-zero");
    let z = "--resize: at least one dimension must be non-zero"@;
    assert(ascii_lower(z) =~= z);
    lemma_present(ascii_lower(z), "must be"@, 33);
    lemma_selects_usage(z);
}

/// An error whose first message selects `USAGE` exits with `USAGE`, whatever
/// follows it.
proof fn lemma_usage_first(c: Seq<Seq<char>>)
    requires
        c.len() > 0,
        cause_code(c[0]) == Some(USAGE),
    ensures
        chain_code(c) == USAGE,
{
}

proof fn lemma_unknown_key_phrases(t: TagKind)
    ensures
        cause_code(unknown_key_error(t, seq![])[0]) == Some(USAGE),
{
    reveal_strlit("Not a recognized metadata key for ");
    reveal_strlit("not a recognized");
    let p = "Not a recognized metadata key for "@;
    match t {
        TagKind::Ape => {
            reveal_strlit("Ape");
            reveal_strlit("not a recognized metadata key for ape");
            assert(ascii_lower(p + "Ape"@) =~= "not a recognized metadata key for ape"@);
            lemma_present(ascii_lower(p + "Ape"@), "not a recognized"@, 0);
            lemma_selects_usage(p + "Ape"@);
        },
        TagKind::Id3v1 => {
            reveal_strlit("Id3v1");
            reveal_strlit("not a recognized metadata key for id3v1");
            assert(ascii_lower(p + "Id3v1"@) =~= "not a recognized metadata key for id3v1"@);
            lemma_present(ascii_lower(p + "Id3v1"@), "not a recognized"@, 0);
            lemma_selects_usage(p + "Id3v1"@);
        },
        TagKind::Id3v2 => {
            reveal_strlit("Id3v2");
            reveal_strlit("not a recognized metadata key for id3v2");
            assert(ascii_lower(p + "Id3v2"@) =~= "not a recognized metadata key for id3v2"@);
            lemma_present(ascii_lower(p + "Id3v2"@), "not a recognized"@, 0);
            lemma_selects_usage(p + "Id3v2"@);
        },
        TagKind::Mp4Ilst => {
            reveal_strlit("Mp4Ilst");
            reveal_strlit("not a recognized metadata key for mp4ilst");
            assert(ascii_lower(p + "Mp4Ilst"@) =~= "not a recognized metadata key for mp4ilst"@);
            lemma_present(ascii_lower(p + "Mp4Ilst"@), "not a recognized"@, 0);
            lemma_selects_usage(p + "Mp4Ilst"@);
        },
        TagKind::VorbisComments => {
            reveal_strlit("VorbisComments");
            reveal_strlit("not a recognized metadata key for vorbiscomments");
            assert(ascii_lower(p + "VorbisComments"@) =~= "not a recognized metadata key for vorbiscomments"@);
            lemma_present(ascii_lower(p + "VorbisComments"@), "not a recognized"@, 0);
            lemma_selects_usage(p + "VorbisComments"@);
        },
        TagKind::RiffInfo => {
            reveal_strlit("RiffInfo");
            reveal_strlit("not a recognized metadata key for riffinfo");
            assert(ascii_lower(p + "RiffInfo"@) =~= "not a recognized metadata key for riffinfo"@);
            lemma_present(ascii_lower(p + "RiffInfo"@), "not a recognized"@, 0);
            lemma_selects_usage(p + "RiffInfo"@);
        },
        TagKind::AiffText => {
            reveal_strlit("AiffText");
            reveal_strlit("not a recognized metadata key for aifftext");
            assert(ascii_lower(p + "AiffText"@) =~= "not a recognized metadata key for aifftext"@);
            lemma_present(ascii_lower(p + "AiffText"@), "not a recognized"@, 0);
            lemma_selects_usage(p + "AiffText"@);
        },
    }
}

/// Refusing a path's extension, a `--set` value or a tag key is a usage
/// error whatever text the user gave: that text follows the phrase that
/// decides the code.
pub proof fn law_refused_user_text_is_usage(e: Option<Seq<char>>, kv: Seq<char>, c: Class, t: TagKind, k: Seq<char>)
    ensures
        chain_code(unknown_ext_error(e)) == USAGE,
        chain_code(audio_ext_error(e)) == USAGE,
        chain_code(frame_ext_error(e)) == USAGE,
        chain_code(class_error(e)) == USAGE,
        chain_code(mkv_error(e)) == USAGE,
        match key_value_result(kv, set_prefix(c)) {
            Err(m) => chain_code(m) == USAGE,
            Ok(_) => true,
        },
        chain_code(unknown_key_error(t, k)) == USAGE,
{
    reveal_strlit("unknown");
    reveal_strlit("cannot detect");
    reveal_strlit("cannot determine");
    reveal_strlit("must be");

    reveal_strlit("Unknown image extension");
    reveal_strlit("unknown image extension");
    let a = "Unknown image extension"@;
    assert(ascii_lower(a) =~= "unknown image extension"@);
    lemma_present(ascii_lower(a), "unknown"@, 0);
    lemma_selects_usage(a);
    lemma_usage_first(unknown_ext_error(e));

    reveal_strlit("Cannot detect audio format from extension");
    reveal_strlit("cannot detect audio format from extension");
    let b = "Cannot detect audio format from extension"@;
    assert(ascii_lower(b) =~= "cannot detect audio format from extension"@);
    lemma_present(ascii_lower(b), "cannot detect"@, 0);
    lemma_selects_usage(b);
    lemma_usage_first(audio_ext_error(e));

    reveal_strlit("Cannot detect image format from extension");
    reveal_strlit("cannot detect image format from extension");
    let f = "Cannot detect image format from extension"@;
    assert(ascii_lower(f) =~= "cannot detect image format from extension"@);
    lemma_present(ascii_lower(f), "cannot detect"@, 0);
    lemma_selects_usage(f);
    lemma_usage_first(frame_ext_error(e));

    reveal_strlit("Cannot determine metadata class from extension");
    reveal_strlit("cannot determine metadata class from extension");
    let g = "Cannot determine metadata class from extension"@;
    assert(ascii_lower(g) =~= "cannot determine metadata class from extension"@);
    lemma_present(ascii_lower(g), "cannot determine"@, 0);
    lemma_selects_usage(g);
    lemma_usage_first(class_error(e));

    reveal_strlit("Output must be .mkv; got");
    reveal_strlit("output must be .mkv; got");
    let h = "Output must be .mkv; got"@;
    assert(ascii_lower(h) =~= "output must be .mkv; got"@);
    lemma_present(ascii_lower(h), "must be"@, 7);
    lemma_selects_usage(h);
    lemma_usage_first(mkv_error(e));

    reveal_strlit("--set value must be ");
    reveal_strlit("--set must be ");
    reveal_strlit("KEY=VALUE, got");
    reveal_strlit("--set value must be key=value, got");
    reveal_strlit("--set must be key=value, got");
    let si = "--set value must be "@ + "KEY=VALUE, got"@;
    assert(ascii_lower(si) =~= "--set value must be key=value, got"@);
    lemma_present(ascii_lower(si), "must be"@, 12);
    lemma_selects_usage(si);
    let sa = "--set must be "@ + "KEY=VALUE, got"@;
    assert(ascii_lower(sa) =~= "--set must be key=value, got"@);
    lemma_present(ascii_lower(sa), "must be"@, 6);
    lemma_selects_usage(sa);
    match key_value_result(kv, set_prefix(c)) {
        Err(m) => lemma_usage_first(m),
        Ok(_) => {},
    }

    lemma_unknown_key_phrases(t);
    assert(unknown_key_error(t, k)[0] == unknown_key_error(t, seq![])[0]);
    lemma_usage_first(unknown_key_error(t, k));
}

/// A message that says a feature is not yet implemented (in any case)
/// gives `UNIMPLEMENTED`.
pub proof fn law_unimplemented_phrase(m: Seq<char>, l: Seq<char>)
    requires
        l == ascii_lower(m),
        seq_contains(l, "not yet implemented"@),
    ensures
        cause_code(m) == Some(UNIMPLEMENTED),
{
}

/// A message that begins with `reading ` or `opening ` (in any case) gives
/// `NO_INPUT`, unless it says a feature is not yet implemented.
pub proof fn law_input_contexts(m: Seq<char>, l: Seq<char>)
    requires
        l == ascii_lower(m),
        !seq_contains(l, "not yet implemented"@),
        seq_starts_with(l, "reading "@) || seq_starts_with(l, "opening "@),
    ensures
        cause_code(m) == Some(NO_INPUT),
{
}

/// A message that begins with `writing ` or `creating ` (in any case) gives
/// `CANT_CREATE_OUTPUT`, unless an earlier phrase decides.
pub proof fn law_output_contexts(m: Seq<char>, l: Seq<char>)
    requires
        l == ascii_lower(m),
        !seq_contains(l, "not yet implemented"@),
        !seq_starts_with(l, "reading "@) && !seq_starts_with(l, "opening "@),
        seq_starts_with(l, "writing "@) || seq_starts_with(l, "creating "@),
    ensures
        cause_code(m) == Some(CANT_CREATE_OUTPUT),
{
}

/// A message about a missing track or missing codec parameters gives
/// `DATA_ERROR`, unless an earlier phrase decides.
pub proof fn law_missing_track_phrases(m: Seq<char>, l: Seq<char>)
    requires
        l == ascii_lower(m),
        !seq_contains(l, "not yet implemented"@),
        !seq_starts_with(l, "reading "@) && !seq_starts_with(l, "opening "@),
        !seq_starts_with(l, "writing "@) && !seq_starts_with(l, "creating "@),
        seq_contains(l, "no video track"@) || seq_contains(l, "no audio track"@) || seq_contains(
            l,
            "no codec params"@,
        ) || seq_contains(l, "not audio codec params"@) || seq_contains(l, "video track missing"@),
    ensures
        cause_code(m) == Some(DATA_ERROR),
{
}

/// A message about a decoder, an encoder or a codec gives `CODEC_ERROR`,
/// unless an earlier phrase decides.
pub proof fn law_codec_phrases(m: Seq<char>, l: Seq<char>)
    requires
        l == ascii_lower(m),
        !seq_contains(l, "not yet implemented"@),
        !seq_starts_with(l, "reading "@) && !seq_starts_with(l, "opening "@),
        !seq_starts_with(l, "writing "@) && !seq_starts_with(l, "creating "@),
        !seq_contains(l, "no video track"@) && !seq_contains(l, "no audio track"@)
            && !seq_contains(l, "no codec params"@) && !seq_contains(l, "not audio codec params"@)
            && !seq_contains(l, "video track missing"@),
        seq_contains(l, "decode"@) || seq_contains(l, "encode"@) || seq_contains(l, "encoder"@)
            || seq_contains(l, "decoder"@) || seq_contains(l, "codec"@),
    ensures
        cause_code(m) == Some(CODEC_ERROR),
{
}

/// A message that says an argument must be something, cannot be used,
/// is unknown, invalid or not recognized, or requires a flag gives `USAGE`,
/// unless an earlier phrase decides.
pub proof fn law_usage_phrases(m: Seq<char>, l: Seq<char>)
    requires
        l == ascii_lower(m),
        !seq_contains(l, "not yet implemented"@),
        !seq_starts_with(l, "reading "@) && !seq_starts_with(l, "opening "@),
        !seq_starts_with(l, "writing "@) && !seq_starts_with(l, "creating "@),
        !seq_contains(l, "no video track"@) && !seq_contains(l, "no audio track"@)
            && !seq_contains(l, "no codec params"@) && !seq_contains(l, "not audio codec params"@)
            && !seq_contains(l, "video track missing"@),
        !seq_contains(l, "decode"@) && !seq_contains(l, "encode"@) && !seq_contains(l, "encoder"@)
            && !seq_contains(l, "decoder"@) && !seq_contains(l, "codec"@),
        seq_contains(l, "must be"@) || seq_contains(l, "cannot detect"@) || seq_contains(
            l,
            "cannot determine"@,
        ) || seq_contains(l, "cannot be combined"@) || seq_contains(l, "not a recognized"@)
            || seq_contains(l, "unknown"@) || seq_contains(l, "invalid"@) || seq_contains(
            l,
            "requires --"@,
        ),
    ensures
        cause_code(m) == Some(USAGE),
{
}

/// A message about content that does not parse, is malformed, is a bad
/// buffer or is missing gives `DATA_ERROR`, unless an earlier phrase
/// decides.
pub proof fn law_data_phrases(m: Seq<char>, l: Seq<char>)
    requires
        l == ascii_lower(m),
        !seq_contains(l, "not yet implemented"@),
        !seq_starts_with(l, "reading "@) && !seq_starts_with(l, "opening "@),
        !seq_starts_with(l, "writing "@) && !seq_starts_with(l, "creating "@),
        !seq_contains(l, "no video track"@) && !seq_contains(l, "no audio track"@)
            && !seq_contains(l, "no codec params"@) && !seq_contains(l, "not audio codec params"@)
            && !seq_contains(l, "video track missing"@),
        !seq_contains(l, "decode"@) && !seq_contains(l, "encode"@) && !seq_contains(l, "encoder"@)
            && !seq_contains(l, "decoder"@) && !seq_contains(l, "codec"@),
        !seq_contains(l, "must be"@) && !seq_contains(l, "cannot detect"@)
            && !seq_contains(l, "cannot determine"@) && !seq_contains(l, "cannot be combined"@)
            && !seq_contains(l, "not a recognized"@) && !seq_contains(l, "unknown"@)
            && !seq_contains(l, "invalid"@) && !seq_contains(l, "requires --"@),
        seq_contains(l, "parse"@) || seq_contains(l, "malformed"@) || seq_contains(
            l,
            "bad pixel buffer"@,
        ) || seq_contains(l, "bad buffer"@) || seq_contains(l, "missing"@),
    ensures
        cause_code(m) == Some(DATA_ERROR),
{
}

/// A damaged block of the input file is an input data error, whatever the
/// reader's own message says.
pub proof fn law_block_parse_is_data_error(x: Seq<char>)
    ensures
        chain_code(seq!["SimpleBlock parse"@, x]) == DATA_ERROR,
{
    reveal_strlit("SimpleBlock parse");
    reveal_strlit("simpleblock parse");
    reveal_strlit("parse");
    let m = "SimpleBlock parse"@;
    let l = ascii_lower(m);
    assert(l =~= "simpleblock parse"@);
    lemma_present(l, "parse"@, 12);
    lemma_selects_data(m);
}

/// The exit statuses of `sysexits.h` that the codes stand for: success 0,
/// a general failure 1, usage 64, bad input data 65, input not opened 66,
/// unimplemented 69, codec failure 70, output not created 73.
pub proof fn law_exit_code_values()
    ensures
        OK == 0 && GENERAL_ERROR == 1 && USAGE == 64 && DATA_ERROR == 65 && NO_INPUT == 66,
        UNIMPLEMENTED == 69 && CODEC_ERROR == 70 && CANT_CREATE_OUTPUT == 73,
{
}

/// Every chain's exit code is a failure code.
pub proof fn lemma_chain_code_failure(c: Seq<Seq<char>>)
    ensures
        is_failure_code(chain_code(c)),
    decreases c.len(),
{
    if c.len() > 0 {
        lemma_chain_code_failure(c.drop_first());
    }
}

/// Wrapping an error in one more context message: the new message decides
/// the exit code when it selects one, else the code stays what it was.
pub proof fn law_context_code(e: Seq<Seq<char>>, m: Seq<char>)
    ensures
        chain_code(seq![m] + e) == match cause_code(m) {
            Some(k) => k,
            None => chain_code(e),
        },
{
    assert((seq![m] + e)[0] == m);
    assert((seq![m] + e).drop_first() =~= e);
}

/// A chain none of whose messages selects a code gives `GENERAL_ERROR`:
/// a classification miss is never worse than a plain failure.
pub proof fn law_unmatched_is_general(c: Seq<Seq<char>>)
    requires
        forall|i: int| 0 <= i < c.len() ==> cause_code(#[trigger] c[i]) is None,
    ensures
        chain_code(c) == GENERAL_ERROR,
    decreases c.len(),
{
    if c.len() > 0 {
        assert forall|i: int| 0 <= i < c.drop_first().len() implies cause_code(
            #[trigger] c.drop_first()[i],
        ) is None by {
            assert(c.drop_first()[i] == c[i + 1]);
        }
        law_unmatched_is_general(c.drop_first());
    }
}

} // verus!
