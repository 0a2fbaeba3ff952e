//! Image conversion: JPEG ↔ PNG ↔ WebP ↔ AVIF ↔ JXL.
//!
//! Formats are chosen by file extension, pixels travel between decoder and
//! encoder as interleaved RGBA8, and an optional `--resize WxH` is parsed
//! here.
use vstd::prelude::*;
use crate::cli::{lower_ext, opt_debug, opt_debug_text, path_ext, path_extension, is_word};
use crate::error::Error;
use crate::text::{
    ascii_lower, ascii_lowercase, chars_of, decimal, find_char, first_index, int_error_string,
    int_error_text, is_digit, is_first_index, law_parse_decimal, lemma_ascii_lower_idempotent,
    lemma_decimal_digits, lemma_first_index_unique, parse_u32, slice_range, spec_parse_u32,
    string_of, IntError,
};

verus! {

// ─── format detection ────────────────────────────────────────────────────────

/// Image formats.
#[derive(Debug, Clone, Copy, PartialEq, Eq, Structural)]
pub enum Fmt {
    Jpeg,
    Png,
    WebP,
    Avif,
    Jxl,
}

/// The image format that an extension names, if any (ASCII case ignored).
pub open spec fn fmt_of(e: Option<Seq<char>>) -> Option<Fmt> {
    match lower_ext(e) {
        Some(l) => if l == "jpg"@ || l == "jpeg"@ {
            Some(Fmt::Jpeg)
        } else if l == "png"@ {
            Some(Fmt::Png)
        } else if l == "webp"@ {
            Some(Fmt::WebP)
        } else if l == "avif"@ {
            Some(Fmt::Avif)
        } else if l == "jxl"@ {
            Some(Fmt::Jxl)
        } else {
            None
        },
        None => None,
    }
}

/// The error of an unknown image extension: the phrase, then the
/// lower-cased extension.
pub open spec fn unknown_ext_error(e: Option<Seq<char>>) -> Seq<Seq<char>> {
    seq!["Unknown image extension"@, opt_debug_text(lower_ext(e))]
}

impl Fmt {
    /// The format that an extension names; the error names the lower-cased
    /// extension.
    pub fn from_ext(ext: Option<&str>) -> (r: Result<Fmt, Error>)
        ensures
            ({
                let e = match ext {
                    None => None,
                    Some(s) => Some(s@),
                };
                match fmt_of(e) {
                    Some(f) => r == Ok::<Fmt, Error>(f),
                    None => r matches Err(err) && err@ == unknown_ext_error(e),
                }
            }),
    {
        let lowered: Option<String> = match ext {
            None => None,
            Some(s) => {
                let c = chars_of(s);
                let l = ascii_lowercase(c.as_slice());
                let l = l.as_slice();
                if is_word(l, "jpg") || is_word(l, "jpeg") {
                    return Ok(Fmt::Jpeg);
                }
                if is_word(l, "png") {
                    return Ok(Fmt::Png);
                }
                if is_word(l, "webp") {
                    return Ok(Fmt::WebP);
                }
                if is_word(l, "avif") {
                    return Ok(Fmt::Avif);
                }
                if is_word(l, "jxl") {
                    return Ok(Fmt::Jxl);
                }
                Some(string_of(l))
            },
        };
        let d = match &lowered {
            None => opt_debug(None),
            Some(l) => opt_debug(Some(l.as_str())),
        };
        Err(Error::detailed("Unknown image extension", d))
    }

    /// The format of a path, by its extension.
    pub fn from_path(p: &str) -> (r: Result<Fmt, Error>)
        ensures
            match fmt_of(path_ext(p@)) {
                Some(f) => r == Ok::<Fmt, Error>(f),
                None => r matches Err(err) && err@ == unknown_ext_error(path_ext(p@)),
            },
    {
        let e = path_extension(p);
        match &e {
            None => Fmt::from_ext(None),
            Some(s) => Fmt::from_ext(Some(s.as_str())),
        }
    }
}

/// The source and target formats of `onas image`, decided from the two
/// paths before any file is read: an unknown input extension is refused
/// first, then an unknown output extension.
pub fn image_formats(input: &str, output: &str) -> (r: Result<(Fmt, Fmt), Error>)
    ensures
        match fmt_of(path_ext(input@)) {
            None => r matches Err(err) && err@ == unknown_ext_error(path_ext(input@)),
            Some(a) => match fmt_of(path_ext(output@)) {
                None => r matches Err(err) && err@ == unknown_ext_error(path_ext(output@)),
                Some(b) => r == Ok::<(Fmt, Fmt), Error>((a, b)),
            },
        },
{
    let a = match Fmt::from_path(input) {
        Ok(a) => a,
        Err(e) => return Err(e),
    };
    let b = match Fmt::from_path(output) {
        Ok(b) => b,
        Err(e) => return Err(e),
    };
    Ok((a, b))
}

// ─── resize argument ─────────────────────────────────────────────────────────

/// What parsing a `WIDTHxHEIGHT` argument gives: the two numbers, or the
/// error chain; `usage` is the message for an argument without an `x`.
pub open spec fn dims_result(s: Seq<char>, usage: Seq<char>) -> Result<(u32, u32), Seq<Seq<char>>> {
    match first_index(s, 'x') {
        None => Err(seq![usage]),
        Some(i) => match spec_parse_u32(s.take(i)) {
            Err(e) => Err(seq!["invalid width"@, int_error_text(e)]),
            Ok(w) => match spec_parse_u32(s.skip(i + 1)) {
                Err(e) => Err(seq!["invalid height"@, int_error_text(e)]),
                Ok(h) => if w == 0 && h == 0 {
                    Err(seq!["--resize: at least one dimension must be non-zero"@])
                } else {
                    Ok((w, h))
                },
            },
        },
    }
}

/// A result of this library against the error chain of a specification.
pub open spec fn matches_result<T>(r: Result<T, Error>, s: Result<T, Seq<Seq<char>>>) -> bool {
    match s {
        Ok(v) => r == Ok::<T, Error>(v),
        Err(c) => r matches Err(e) && e@ == c,
    }
}

/// Parses `WIDTHxHEIGHT`: the text before the first `x` is the width, the
/// rest the height, each a `u32`; both zero is refused.
pub fn parse_dims(s: &str, usage: &str) -> (r: Result<(u32, u32), Error>)
    ensures
        matches_result(r, dims_result(s@, usage@)),
{
    let c = chars_of(s);
    let c = c.as_slice();
    let i = match find_char(c, 'x') {
        None => return Err(Error::msg(String::from_str(usage))),
        Some(i) => i,
    };
    let a = slice_range(c, 0, i);
    let b = slice_range(c, i + 1, c.len());
    assert(a@ =~= s@.take(i as int));
    assert(b@ =~= s@.skip(i + 1));
    let w = match parse_u32(a.as_slice()) {
        Err(e) => {
            let err = Error::msg(int_error_string(e)).context(String::from_str("invalid width"));
            assert(err@ =~= seq!["invalid width"@, int_error_text(e)]);
            return Err(err);
        },
        Ok(w) => w,
    };
    let h = match parse_u32(b.as_slice()) {
        Err(e) => {
            let err = Error::msg(int_error_string(e)).context(String::from_str("invalid height"));
            assert(err@ =~= seq!["invalid height"@, int_error_text(e)]);
            return Err(err);
        },
        Ok(h) => h,
    };
    if w == 0 && h == 0 {
        return Err(
            Error::msg(String::from_str("--resize: at least one dimension must be non-zero")),
        );
    }
    Ok((w, h))
}

/// Parses the `--resize` argument of `onas image`.
pub fn parse_resize(s: &str) -> (r: Result<(u32, u32), Error>)
    ensures
        matches_result(r, dims_result(s@, "--resize must be WIDTHxHEIGHT, e.g. 1920x1080 or 1920x0"@)),
{
    parse_dims(s, "--resize must be WIDTHxHEIGHT, e.g. 1920x1080 or 1920x0")
}

/// A `WIDTHxHEIGHT` argument written from two numbers, not both zero,
/// parses back to those numbers.
pub proof fn law_resize_roundtrip(w: u32, h: u32, usage: Seq<char>)
    requires
        w != 0 || h != 0,
    ensures
        dims_result(decimal(w as nat) + seq!['x'] + decimal(h as nat), usage) == Ok::<
            (u32, u32),
            Seq<Seq<char>>,
        >((w, h)),
{
    let dw = decimal(w as nat);
    let dh = decimal(h as nat);
    let s = dw + seq!['x'] + dh;
    lemma_decimal_digits(w as nat);
    let i = dw.len() as int;
    assert forall|j: int| 0 <= j < i implies s[j] != 'x' by {
        assert(s[j] == dw[j]);
        assert(is_digit(dw[j]));
    }
    assert(is_first_index(s, 'x', i));
    let k = choose|k: int| is_first_index(s, 'x', k);
    lemma_first_index_unique(s, 'x', i, k);
    assert(first_index(s, 'x') == Some(i));
    assert(s.take(i) =~= dw);
    assert(s.skip(i + 1) =~= dh);
    law_parse_decimal(w);
    law_parse_decimal(h);
}

/// The format of an extension does not depend on its ASCII case.
pub proof fn law_fmt_ignores_case(e: Seq<char>)
    ensures
        fmt_of(Some(e)) == fmt_of(Some(ascii_lower(e))),
{
    lemma_ascii_lower_idempotent(e);
}

/// The extensions of each image format, whatever their case: `jpg` or
/// `jpeg` for JPEG, `png`, `webp`, `avif` and `jxl`; no other names one.
pub proof fn law_image_extensions_select(e: Seq<char>)
    ensures
        fmt_of(Some(e)) == Some(Fmt::Jpeg) <==> (ascii_lower(e) == "jpg"@ || ascii_lower(e) == "jpeg"@),
        fmt_of(Some(e)) == Some(Fmt::Png) <==> ascii_lower(e) == "png"@,
        fmt_of(Some(e)) == Some(Fmt::WebP) <==> ascii_lower(e) == "webp"@,
        fmt_of(Some(e)) == Some(Fmt::Avif) <==> ascii_lower(e) == "avif"@,
        fmt_of(Some(e)) == Some(Fmt::Jxl) <==> ascii_lower(e) == "jxl"@,
{
    reveal_strlit("jpg");
    reveal_strlit("jpeg");
    reveal_strlit("png");
    reveal_strlit("webp");
    reveal_strlit("avif");
    reveal_strlit("jxl");
    assert("jpg"@.len() == 3 && "jpg"@[0] == 'j' && "jpg"@[1] == 'p');
    assert("jpeg"@.len() == 4 && "jpeg"@[0] == 'j' && "jpeg"@[1] == 'p');
    assert("png"@.len() == 3 && "png"@[0] == 'p' && "png"@[1] == 'n');
    assert("webp"@.len() == 4 && "webp"@[0] == 'w' && "webp"@[1] == 'e');
    assert("avif"@.len() == 4 && "avif"@[0] == 'a' && "avif"@[1] == 'v');
    assert("jxl"@.len() == 3 && "jxl"@[0] == 'j' && "jxl"@[1] == 'x');
}

// ─── RGBA8 pixels ────────────────────────────────────────────────────────────

/// A decoded image: `w`×`h` pixels, interleaved RGBA, 4 bytes a pixel.
#[derive(Debug)]
pub struct Rgba8 {
    pub w: u32,
    pub h: u32,
    pub data: Vec<u8>,
}

/// The first `k` whole pixels of `d` without their alpha bytes.
pub open spec fn rgb_prefix(d: Seq<u8>, k: nat) -> Seq<u8>
    decreases k,
{
    if k == 0 {
        Seq::empty()
    } else {
        let b = 4 * (k - 1);
        rgb_prefix(d, (k - 1) as nat) + seq![d[b], d[b + 1], d[b + 2]]
    }
}

/// Every whole 4-byte pixel of `d`, alpha dropped; a trailing partial pixel
/// is ignored (as `chunks_exact(4)` does).
pub open spec fn rgb_of(d: Seq<u8>) -> Seq<u8> {
    rgb_prefix(d, d.len() / 4)
}

impl Rgba8 {
    /// The pixels as interleaved RGB, alpha dropped.
    pub fn rgb(&self) -> (r: Vec<u8>)
        ensures
            r@ == rgb_of(self.data@),
    {
        let n = self.data.len() / 4;
        let mut out: Vec<u8> = Vec::new();
        let mut k: usize = 0;
        while k < n
            invariant
                n == self.data.len() / 4,
                k <= n,
                out@ == rgb_prefix(self.data@, k as nat),
            decreases n - k,
        {
            let b = 4 * k;
            out.push(self.data[b]);
            out.push(self.data[b + 1]);
            out.push(self.data[b + 2]);
            k = k + 1;
        }
        out
    }
}

// ─── decoding ────────────────────────────────────────────────────────────────

/// The step of a decoder that failed.
#[derive(Debug, Clone, Copy, PartialEq, Eq, Structural)]
pub enum DecodeStep {
    /// Reading the headers.
    Header,
    /// Asking for the image information.
    Info,
    /// Decoding the pixels.
    Pixels,
}

/// What zune-jpeg gives for `bytes` decoded to RGBA: width, height and
/// pixels, or the failed step and the decoder's error text.
pub uninterp spec fn jpeg_decoding(bytes: Seq<u8>) -> Result<(u32, u32, Seq<u8>), (DecodeStep, Seq<char>)>;

/// What zune-png gives for `bytes` decoded with an added alpha channel.
pub uninterp spec fn png_decoding(bytes: Seq<u8>) -> Result<(u32, u32, Seq<u8>), (DecodeStep, Seq<char>)>;

/// What the `image` crate gives for `bytes` (format guessed from the
/// content) converted to RGBA8, or its error text.
pub uninterp spec fn image_decoding(bytes: Seq<u8>) -> Result<(u32, u32, Seq<u8>), Seq<char>>;

/// A decoder's raw result as plain values.
pub open spec fn raw_view(r: Result<(u32, u32, Vec<u8>), (DecodeStep, String)>) -> Result<(u32, u32, Seq<u8>), (DecodeStep, Seq<char>)> {
    match r {
        Ok((w, h, d)) => Ok((w, h, d@)),
        Err((s, m)) => Err((s, m@)),
    }
}

/// zune-jpeg: `JpegDecoder` on the bytes with RGBA output, then
/// `decode_headers`, `info` and `decode`. The result is named
/// `jpeg_decoding`; no more is claimed of it.
#[verifier::external_body]
fn zune_jpeg_rgba(bytes: &[u8]) -> (r: Result<(u32, u32, Vec<u8>), (DecodeStep, String)>)
    ensures
        raw_view(r) == jpeg_decoding(bytes@),
{
    let opts = zune_core::options::DecoderOptions::default()
        .jpeg_set_out_colorspace(zune_core::colorspace::ColorSpace::RGBA);
    let mut dec = zune_jpeg::JpegDecoder::new_with_options(zune_core::bytestream::ZCursor::new(bytes), opts);
    if let Err(e) = dec.decode_headers() {
        return Err((DecodeStep::Header, e.to_string()));
    }
    let Some(info) = dec.info() else { return Err((DecodeStep::Info, String::new())) };
    match dec.decode() {
        Ok(px) => Ok((info.width as u32, info.height as u32, px)),
        Err(e) => Err((DecodeStep::Pixels, e.to_string())),
    }
}

/// zune-png: `PngDecoder` on the bytes with an alpha channel added, then
/// `decode_raw` and `info`. The result is named `png_decoding`; no more is
/// claimed of it.
#[verifier::external_body]
fn zune_png_rgba(bytes: &[u8]) -> (r: Result<(u32, u32, Vec<u8>), (DecodeStep, String)>)
    ensures
        raw_view(r) == png_decoding(bytes@),
{
    let opts = zune_core::options::DecoderOptions::default().png_set_add_alpha_channel(true);
    let mut dec = zune_png::PngDecoder::new_with_options(zune_core::bytestream::ZCursor::new(bytes), opts);
    let px = match dec.decode_raw() {
        Ok(px) => px,
        Err(e) => return Err((DecodeStep::Pixels, e.to_string())),
    };
    match dec.info() {
        Some(info) => Ok((info.width as u32, info.height as u32, px)),
        None => Err((DecodeStep::Info, String::new())),
    }
}

/// `image::load_from_memory` then `to_rgba8`. The result is named
/// `image_decoding`; no more is claimed of it.
#[verifier::external_body]
fn image_load_rgba(bytes: &[u8]) -> (r: Result<(u32, u32, Vec<u8>), String>)
    ensures
        match r {
            Ok((w, h, d)) => image_decoding(bytes@) == Ok::<(u32, u32, Seq<u8>), Seq<char>>((w, h, d@)),
            Err(m) => image_decoding(bytes@) == Err::<(u32, u32, Seq<u8>), Seq<char>>(m@),
        },
{
    match image::load_from_memory(bytes) {
        Ok(img) => {
            let rgba = img.to_rgba8();
            let (w, h) = rgba.dimensions();
            Ok((w, h, rgba.into_raw()))
        },
        Err(e) => Err(e.to_string()),
    }
}

/// The image or error chain that a decoder's result gives. A decoder that
/// refuses the bytes refuses the input data (the bytes are not the format
/// the name says, or are damaged), so the outermost message is
/// `"malformed input"`; under it the decoder's name and step
/// (`"<label> header"`, `"<label> info"` or `"<label> data"`), then the
/// decoder's message where there is one.
pub open spec fn decoded(
    raw: Result<(u32, u32, Seq<u8>), (DecodeStep, Seq<char>)>,
    label: Seq<char>,
) -> Result<(u32, u32, Seq<u8>), Seq<Seq<char>>> {
    match raw {
        Ok(v) => Ok(v),
        Err((DecodeStep::Header, m)) => Err(seq!["malformed input"@, label + " header"@, m]),
        Err((DecodeStep::Info, _)) => Err(seq!["malformed input"@, label + " info"@]),
        Err((DecodeStep::Pixels, m)) => Err(seq!["malformed input"@, label + " data"@, m]),
    }
}

/// A decoded image against what a specification says of it.
pub open spec fn image_matches(r: Result<Rgba8, Error>, s: Result<(u32, u32, Seq<u8>), Seq<Seq<char>>>) -> bool {
    match s {
        Ok((w, h, d)) => r matches Ok(img) && img.w == w && img.h == h && img.data@ == d,
        Err(c) => r matches Err(e) && e@ == c,
    }
}

/// Turns a decoder's raw result into an image, or into the error chain
/// under the decoder's name, as `decoded` says.
pub fn decoder_result(raw: Result<(u32, u32, Vec<u8>), (DecodeStep, String)>, label: &str) -> (r: Result<Rgba8, Error>)
    ensures
        image_matches(r, decoded(raw_view(raw), label@)),
{
    match raw {
        Ok((w, h, data)) => Ok(Rgba8 { w, h, data }),
        Err((step, m)) => {
            let mut ctx = String::from_str(label);
            let inner = match step {
                DecodeStep::Header => {
                    ctx.append(" header");
                    Error::msg(m).context(ctx)
                },
                DecodeStep::Info => {
                    ctx.append(" info");
                    Error::msg(ctx)
                },
                DecodeStep::Pixels => {
                    ctx.append(" data");
                    Error::msg(m).context(ctx)
                },
            };
            let e = inner.context(String::from_str("malformed input"));
            assert(e@ =~= decoded(raw_view(raw), label@)->Err_0);
            Err(e)
        },
    }
}

/// Decodes JPEG bytes to RGBA8 with zune-jpeg.
pub fn decode_jpeg(bytes: &[u8]) -> (r: Result<Rgba8, Error>)
    ensures
        image_matches(r, decoded(jpeg_decoding(bytes@), "JPEG"@)),
{
    let raw = zune_jpeg_rgba(bytes);
    decoder_result(raw, "JPEG")
}

/// Decodes PNG bytes to RGBA8 with zune-png.
pub fn decode_png(bytes: &[u8]) -> (r: Result<Rgba8, Error>)
    ensures
        image_matches(r, decoded(png_decoding(bytes@), "PNG"@)),
{
    let raw = zune_png_rgba(bytes);
    decoder_result(raw, "PNG")
}

/// The image or error chain of a decode through the `image` crate: the
/// error under `"malformed input"` and `"<label> data"`.
pub open spec fn via_image(raw: Result<(u32, u32, Seq<u8>), Seq<char>>, label: Seq<char>) -> Result<(u32, u32, Seq<u8>), Seq<Seq<char>>> {
    match raw {
        Ok(v) => Ok(v),
        Err(m) => Err(seq!["malformed input"@, label + " data"@, m]),
    }
}

/// Decodes bytes (WebP, AVIF, …) to RGBA8 through the `image` crate;
/// `label` names the format in the error.
pub fn decode_via_image(bytes: &[u8], label: &str) -> (r: Result<Rgba8, Error>)
    ensures
        image_matches(r, via_image(image_decoding(bytes@), label@)),
{
    let raw = match image_load_rgba(bytes) {
        Ok(v) => Ok(v),
        Err(m) => Err((DecodeStep::Pixels, m)),
    };
    decoder_result(raw, label)
}

// ─── encoding ────────────────────────────────────────────────────────────────

/// What the `image` crate's JPEG encoder, at `quality`, writes for `w`×`h`
/// RGB pixels, or its error text.
pub uninterp spec fn jpeg_encoding(w: u32, h: u32, rgb: Seq<u8>, quality: u8) -> Result<Seq<u8>, Seq<char>>;

/// What the `image` crate's PNG encoder writes for `w`×`h` RGBA pixels.
pub uninterp spec fn png_encoding(w: u32, h: u32, rgba: Seq<u8>) -> Result<Seq<u8>, Seq<char>>;

/// What the `image` crate's lossless WebP encoder writes for `w`×`h` RGBA pixels.
pub uninterp spec fn webp_encoding(w: u32, h: u32, rgba: Seq<u8>) -> Result<Seq<u8>, Seq<char>>;

/// An encoder's result as plain values.
pub open spec fn bytes_view(r: Result<Vec<u8>, String>) -> Result<Seq<u8>, Seq<char>> {
    match r {
        Ok(b) => Ok(b@),
        Err(m) => Err(m@),
    }
}

/// `JpegEncoder::new_with_quality` into memory (quality clamped by the
/// encoder to 1..=100), then `encode` of the RGB8 pixels; the result is
/// named `jpeg_encoding`. `encode` panics unless the buffer holds exactly
/// `3 * w * h` bytes, hence the `requires`.
#[verifier::external_body]
fn image_jpeg(w: u32, h: u32, rgb: &[u8], quality: u8) -> (r: Result<Vec<u8>, String>)
    requires
        rgb@.len() == 3 * w * h,
    ensures
        bytes_view(r) == jpeg_encoding(w, h, rgb@, quality),
{
    let mut out = std::io::Cursor::new(Vec::new());
    let mut enc = image::codecs::jpeg::JpegEncoder::new_with_quality(&mut out, quality);
    match enc.encode(rgb, w, h, image::ExtendedColorType::Rgb8) {
        Ok(()) => Ok(out.into_inner()),
        Err(e) => Err(e.to_string()),
    }
}

/// `RgbaImage::from_raw(w, h, rgba)` (`None` exactly when the buffer holds
/// fewer than `4 * w * h` bytes), then `write_to` with `ImageFormat::Png`
/// into memory, whose result is named `png_encoding`.
#[verifier::external_body]
fn image_png(w: u32, h: u32, rgba: Vec<u8>) -> (r: Option<Result<Vec<u8>, String>>)
    ensures
        r is None <==> rgba@.len() < 4 * w * h,
        r matches Some(x) ==> bytes_view(x) == png_encoding(w, h, rgba@),
{
    let img = image::RgbaImage::from_raw(w, h, rgba)?;
    let mut out = std::io::Cursor::new(Vec::new());
    Some(match img.write_to(&mut out, image::ImageFormat::Png) {
        Ok(()) => Ok(out.into_inner()),
        Err(e) => Err(e.to_string()),
    })
}

/// `WebPEncoder::new_lossless` into memory, then `encode` of the RGBA8
/// pixels; the result is named `webp_encoding`. `encode` panics unless the
/// buffer holds exactly `4 * w * h` bytes, hence the `requires`.
#[verifier::external_body]
fn image_webp(w: u32, h: u32, rgba: &[u8]) -> (r: Result<Vec<u8>, String>)
    requires
        rgba@.len() == 4 * w * h,
    ensures
        bytes_view(r) == webp_encoding(w, h, rgba@),
{
    let mut out = std::io::Cursor::new(Vec::new());
    let enc = image::codecs::webp::WebPEncoder::new_lossless(&mut out);
    match enc.encode(rgba, w, h, image::ExtendedColorType::Rgba8) {
        Ok(()) => Ok(out.into_inner()),
        Err(e) => Err(e.to_string()),
    }
}

/// The bytes or error chain of an encode: a buffer too small for the size
/// gives `"<label>: bad pixel buffer"`, an encoder failure
/// `"<label> encode"` over the encoder's message.
pub open spec fn encoded(fits: bool, raw: Result<Seq<u8>, Seq<char>>, label: Seq<char>) -> Result<Seq<u8>, Seq<Seq<char>>> {
    if !fits {
        Err(seq![label + ": bad pixel buffer"@])
    } else {
        match raw {
            Ok(b) => Ok(b),
            Err(m) => Err(seq![label + " encode"@, m]),
        }
    }
}

/// An encoded file against what a specification says of it.
pub open spec fn bytes_match(r: Result<Vec<u8>, Error>, s: Result<Seq<u8>, Seq<Seq<char>>>) -> bool {
    match s {
        Ok(b) => r matches Ok(v) && v@ == b,
        Err(c) => r matches Err(e) && e@ == c,
    }
}

fn encode_failure(label: &str, suffix: &str, m: Option<String>) -> (e: Error)
    ensures
        match m {
            Some(x) => e@ == seq![label@ + suffix@, x@],
            None => e@ == seq![label@ + suffix@],
        },
{
    let mut ctx = String::from_str(label);
    ctx.append(suffix);
    match m {
        Some(x) => {
            let e = Error::msg(x).context(ctx);
            assert(e@ =~= seq![label@ + suffix@, x@]);
            e
        },
        None => Error::msg(ctx),
    }
}

/// Turns an encoder's raw result into the file's bytes or an error chain
/// under the encoder's name: no result (the pixel buffer was too small for
/// the size) gives `"<label>: bad pixel buffer"`, an encoder failure
/// `"<label> encode"` over the encoder's message.
pub fn encoder_result(raw: Option<Result<Vec<u8>, String>>, label: &str) -> (r: Result<Vec<u8>, Error>)
    ensures
        match raw {
            None => r matches Err(e) && e@ == seq![label@ + ": bad pixel buffer"@],
            Some(x) => bytes_match(r, encoded(true, bytes_view(x), label@)),
        },
{
    match raw {
        None => Err(encode_failure(label, ": bad pixel buffer", None)),
        Some(Ok(b)) => Ok(b),
        Some(Err(m)) => Err(encode_failure(label, " encode", Some(m))),
    }
}

/// How many bytes a `w`×`h`
/// image of `bpp` bytes a pixel takes, if a buffer of `len` holds them.
fn needed(w: u32, h: u32, bpp: u32, len: usize) -> (r: Option<usize>)
    requires
        bpp <= 4,
    ensures
        match r {
            Some(n) => n == bpp * w * h && n <= len,
            None => len < bpp * w * h,
        },
{
    let w128 = w as u128;
    let h128 = h as u128;
    assert(w128 * h128 <= 0xFFFF_FFFFu128 * 0xFFFF_FFFFu128) by (nonlinear_arith)
        requires
            w128 <= 0xFFFF_FFFFu128,
            h128 <= 0xFFFF_FFFFu128,
    ;
    let wh: u128 = w128 * h128;
    assert(bpp * wh == bpp * w * h) by (nonlinear_arith)
        requires
            wh == w128 * h128,
            w128 == w,
            h128 == h,
    ;
    assert((bpp as u128) * wh <= 4 * (0xFFFF_FFFFu128 * 0xFFFF_FFFFu128)) by (nonlinear_arith)
        requires
            bpp <= 4,
            wh <= 0xFFFF_FFFFu128 * 0xFFFF_FFFFu128,
    ;
    let n: u128 = (bpp as u128) * wh;
    if n <= len as u128 {
        Some(n as usize)
    } else {
        None
    }
}

/// Encodes the pixels as JPEG (alpha dropped) at `quality` (1–100, where
/// 100 is best) with the `image` crate; the first `3 * w * h` RGB bytes
/// are encoded.
pub fn encode_jpeg(img: &Rgba8, quality: u8) -> (r: Result<Vec<u8>, Error>)
    ensures
        bytes_match(
            r,
            encoded(
                rgb_of(img.data@).len() >= 3 * img.w * img.h,
                jpeg_encoding(img.w, img.h, rgb_of(img.data@).take(3 * img.w * img.h), quality),
                "JPEG"@,
            ),
        ),
{
    let mut rgb = img.rgb();
    let raw = match needed(img.w, img.h, 3, rgb.len()) {
        Some(n) => {
            rgb.truncate(n);
            Some(image_jpeg(img.w, img.h, rgb.as_slice(), quality))
        },
        None => None,
    };
    encoder_result(raw, "JPEG")
}

/// Encodes the pixels as PNG with the `image` crate.
pub fn encode_png(img: &Rgba8) -> (r: Result<Vec<u8>, Error>)
    ensures
        bytes_match(
            r,
            encoded(
                img.data@.len() >= 4 * img.w * img.h,
                png_encoding(img.w, img.h, img.data@),
                "PNG"@,
            ),
        ),
{
    encoder_result(image_png(img.w, img.h, img.data.clone()), "PNG")
}

/// Encodes the pixels as lossless WebP with the `image` crate (the only
/// WebP encoder it offers); a buffer too small for the size is refused
/// first, and the first `4 * w * h` bytes are encoded.
pub fn encode_webp(img: &Rgba8) -> (r: Result<Vec<u8>, Error>)
    ensures
        bytes_match(
            r,
            encoded(
                img.data@.len() >= 4 * img.w * img.h,
                webp_encoding(img.w, img.h, img.data@.take(4 * img.w * img.h)),
                "WebP"@,
            ),
        ),
{
    let raw = match needed(img.w, img.h, 4, img.data.len()) {
        Some(n) => {
            let mut px = img.data.clone();
            px.truncate(n);
            Some(image_webp(img.w, img.h, px.as_slice()))
        },
        None => None,
    };
    encoder_result(raw, "WebP")
}

// ─── resampling ──────────────────────────────────────────────────────────────

/// The resampling filters of the `image` crate that `onas` uses.
#[derive(Debug, Clone, Copy, PartialEq, Eq, Structural)]
pub enum ResizeFilter {
    /// `FilterType::Lanczos3`.
    Lanczos3,
}

/// The pixels that `imageops::resize` with `filter` gives for a `w`×`h`
/// RGBA8 image scaled to `tw`×`th`.
pub uninterp spec fn resized(w: u32, h: u32, data: Seq<u8>, tw: u32, th: u32, filter: ResizeFilter) -> Seq<u8>;

/// The largest side that the resampler takes: it places its filter window
/// in `f32`, which stops being exact from 2^24 on (a window can then fall
/// wholly outside the image and the filter divides 0 by 0 and panics).
pub const MAX_RESIZE_SIDE: u32 = 16_777_215;

/// `RgbaImage::from_raw` on the pixels, then `imageops::resize` to
/// `tw`×`th` with the filter; the new pixels are named `resized`, and there
/// are `4 * tw * th` of them (the size of the image buffer that `resize`
/// builds).
#[verifier::external_body]
fn image_resize(w: u32, h: u32, data: Vec<u8>, tw: u32, th: u32, filter: ResizeFilter) -> (r: Vec<u8>)
    requires
        data@.len() >= 4 * w * h,
        4 * tw * th <= usize::MAX,
        w <= MAX_RESIZE_SIDE,
        h <= MAX_RESIZE_SIDE,
        tw <= MAX_RESIZE_SIDE,
        th <= MAX_RESIZE_SIDE,
    ensures
        r@ == resized(w, h, data@, tw, th, filter),
        r@.len() == 4 * tw * th,
{
    let f = match filter {
        ResizeFilter::Lanczos3 => image::imageops::FilterType::Lanczos3,
    };
    let img = image::RgbaImage::from_raw(w, h, data).unwrap();
    image::imageops::resize(&img, tw, th, f).into_raw()
}

/// `a * b / c` rounded to the nearest integer, halves away from zero, and
/// saturated to `u32`; a zero `c` gives `u32::MAX`, or 0 when `a * b` is 0.
/// For factors and a result below 2^24 this is what
/// `(a as f64 * b as f64 / c as f64).round() as u32` gives: the product is
/// exact in `f64`, and the quotient's rounding error is far smaller than its
/// distance to any half that it does not hit exactly.
pub open spec fn scaled(a: u32, b: u32, c: u32) -> u32 {
    if c == 0 {
        if a * b > 0 {
            u32::MAX
        } else {
            0
        }
    } else {
        let q = (2 * a * b + c) / (2 * c);
        if q > u32::MAX {
            u32::MAX
        } else {
            q as u32
        }
    }
}

/// Computes `scaled`.
pub fn scale(a: u32, b: u32, c: u32) -> (r: u32)
    ensures
        r == scaled(a, b, c),
{
    if c == 0 {
        assert((a * b > 0) == (a > 0 && b > 0)) by (nonlinear_arith);
        if a > 0 && b > 0 {
            u32::MAX
        } else {
            0
        }
    } else {
        let x: u128 = a as u128;
        let y: u128 = b as u128;
        assert(x * y <= 0xffff_ffffu128 * 0xffff_ffffu128) by (nonlinear_arith)
            requires
                x <= 0xffff_ffffu128,
                y <= 0xffff_ffffu128,
        ;
        let num: u128 = 2 * (x * y) + (c as u128);
        assert(num == 2 * a * b + c) by (nonlinear_arith)
            requires
                num == 2 * (x * y) + c,
                x == a,
                y == b,
        ;
        let q: u128 = num / (2 * (c as u128));
        assert(q == (2 * a * b + c) / (2 * c));
        if q > 0xffff_ffffu128 {
            u32::MAX
        } else {
            q as u32
        }
    }
}

/// The size that `--resize tw×th` asks of a `w`×`h` image: a zero side
/// follows the aspect ratio of the other (`scaled`).
pub open spec fn filled(w: u32, h: u32, tw: u32, th: u32) -> (u32, u32) {
    let fw = if tw == 0 {
        scaled(w, th, h)
    } else {
        tw
    };
    (fw, if th == 0 {
        scaled(h, fw, w)
    } else {
        th
    })
}

/// Computes `filled`.
pub fn fill_dims(w: u32, h: u32, tw: u32, th: u32) -> (r: (u32, u32))
    ensures
        r == filled(w, h, tw, th),
{
    let fw = if tw == 0 {
        scale(w, th, h)
    } else {
        tw
    };
    let fh = if th == 0 {
        scale(h, fw, w)
    } else {
        th
    };
    (fw, fh)
}

/// A zero side keeps the aspect ratio: asking for the image's own width
/// (or height) with the other side zero gives back its own size.
pub proof fn law_zero_side_keeps_aspect(w: u32, h: u32)
    requires
        w > 0,
        h > 0,
    ensures
        filled(w, h, w, 0) == (w, h),
        filled(w, h, 0, h) == (w, h),
{
    assert((2 * h * w + w) / (2 * w) == h) by (nonlinear_arith)
        requires
            w > 0,
    ;
    assert((2 * w * h + h) / (2 * h) == w) by (nonlinear_arith)
        requires
            h > 0,
    ;
}

/// Scaling the width by a whole factor scales the height that follows it by
/// the same factor.
pub proof fn law_zero_side_scales(w: u32, h: u32, k: u32)
    requires
        w > 0,
        k > 0,
        w * k <= u32::MAX,
        h * k <= u32::MAX,
    ensures
        filled(w, h, (w * k) as u32, 0).1 == h * k,
{
    assert(w * k > 0) by (nonlinear_arith)
        requires
            w > 0,
            k > 0,
    ;
    let fw = (w * k) as u32;
    assert(fw == w * k);
    assert(filled(w, h, fw, 0).0 == fw);
    assert((2 * h * fw + w) / (2 * w) == h * k) by (nonlinear_arith)
        requires
            w > 0,
            fw == w * k,
    ;
}

impl Rgba8 {
    /// The image scaled with the Lanczos3 filter to the size that `tw`×`th`
    /// asks for: a zero side follows the aspect ratio (`filled`).
    pub fn resize(&self, tw: u32, th: u32) -> (r: Rgba8)
        requires
            tw != 0 || th != 0,
            self.data@.len() >= 4 * self.w * self.h,
            4 * filled(self.w, self.h, tw, th).0 * filled(self.w, self.h, tw, th).1 <= usize::MAX,
            self.w <= MAX_RESIZE_SIDE,
            self.h <= MAX_RESIZE_SIDE,
            filled(self.w, self.h, tw, th).0 <= MAX_RESIZE_SIDE,
            filled(self.w, self.h, tw, th).1 <= MAX_RESIZE_SIDE,
        ensures
            (r.w, r.h) == filled(self.w, self.h, tw, th),
            r.data@ == resized(self.w, self.h, self.data@, r.w, r.h, ResizeFilter::Lanczos3),
    {
        let (fw, fh) = fill_dims(self.w, self.h, tw, th);
        self.resize_exact(fw, fh)
    }

    /// The image scaled to exactly `tw`×`th` with the Lanczos3 filter.
    pub fn resize_exact(&self, tw: u32, th: u32) -> (r: Rgba8)
        requires
            self.data@.len() >= 4 * self.w * self.h,
            4 * tw * th <= usize::MAX,
            self.w <= MAX_RESIZE_SIDE,
            self.h <= MAX_RESIZE_SIDE,
            tw <= MAX_RESIZE_SIDE,
            th <= MAX_RESIZE_SIDE,
        ensures
            r.w == tw,
            r.h == th,
            r.data@ == resized(self.w, self.h, self.data@, tw, th, ResizeFilter::Lanczos3),
            r.data@.len() == 4 * tw * th,
    {
        let data = image_resize(self.w, self.h, self.data.clone(), tw, th, ResizeFilter::Lanczos3);
        Rgba8 { w: tw, h: th, data }
    }
}

} // verus!
