//! Audio transcoding: FLAC ↔ Opus ↔ M4A (AAC).
//!
//! Decoding yields floating-point PCM, which the binary converts; this
//! module holds the integer side of the encoders: channel checks, framing
//! of 16-bit samples into fixed-size encoder frames, and the byte layout of
//! the length-prefixed Opus packet stream.
use vstd::prelude::*;
use crate::error::Error;
use crate::text::{decimal, decimal_chars, string_of};
use fdk_aac::enc::{AudioObjectType, BitRate, ChannelMode, Encoder, EncoderParams, Transport};

verus! {

/// Samples per channel in one 20 ms Opus frame at 48 kHz.
pub const OPUS_FRAME: usize = 960;

/// Samples per channel in one AAC-LC frame.
pub const AAC_FRAME: usize = 1024;

/// The number of whole frames (one sample per channel) in `n` interleaved samples.
pub fn frames(n: usize, channels: u32) -> (r: usize)
    requires
        channels > 0,
    ensures
        r as int == (n as int) / (channels as int),
{
    n / (channels as usize)
}

/// Channel layouts that the Opus encoder takes.
#[derive(Debug, Clone, Copy, PartialEq, Eq, Structural)]
pub enum OpusChannels {
    Mono,
    Stereo,
}

/// The message for a channel count that Opus does not take.
pub open spec fn opus_channels_message(n: u32) -> Seq<char> {
    "Opus supports 1 or 2 channels; got "@ + decimal(n as nat) + ". Mix down first."@
}

/// The Opus layout for a channel count: 1 mono, 2 stereo, anything else refused.
pub fn opus_channels(n: u32) -> (r: Result<OpusChannels, Error>)
    ensures
        n == 1 ==> r == Ok::<OpusChannels, Error>(OpusChannels::Mono),
        n == 2 ==> r == Ok::<OpusChannels, Error>(OpusChannels::Stereo),
        n != 1 && n != 2 ==> (r matches Err(e) && e@ == seq![opus_channels_message(n)]),
{
    if n == 1 {
        Ok(OpusChannels::Mono)
    } else if n == 2 {
        Ok(OpusChannels::Stereo)
    } else {
        let mut m = String::from_str("Opus supports 1 or 2 channels; got ");
        let d = string_of(decimal_chars(n).as_slice());
        m.append(d.as_str());
        m.append(". Mix down first.");
        Err(Error::msg(m))
    }
}

/// Channel modes of the AAC encoder.
#[derive(Debug, Clone, Copy, PartialEq, Eq, Structural)]
pub enum AacChannels {
    Mono,
    Stereo,
}

/// The message for a channel count that the AAC encoder does not take.
pub open spec fn aac_channels_message(n: u32) -> Seq<char> {
    "fdk-aac supports up to 2 channels; got "@ + decimal(n as nat)
}

/// The AAC channel mode: more than 2 channels is refused, 1 is mono, and
/// any other count stereo.
pub fn aac_channels(n: u32) -> (r: Result<AacChannels, Error>)
    ensures
        n > 2 ==> (r matches Err(e) && e@ == seq![aac_channels_message(n)]),
        n == 1 ==> r == Ok::<AacChannels, Error>(AacChannels::Mono),
        n <= 2 && n != 1 ==> r == Ok::<AacChannels, Error>(AacChannels::Stereo),
{
    if n > 2 {
        let mut m = String::from_str("fdk-aac supports up to 2 channels; got ");
        let d = string_of(decimal_chars(n).as_slice());
        m.append(d.as_str());
        return Err(Error::msg(m));
    }
    if n == 1 {
        Ok(AacChannels::Mono)
    } else {
        Ok(AacChannels::Stereo)
    }
}

/// A bitrate in kbps as the bits per second that the Opus encoder takes
/// (`(kbps * 1000) as i32`).
pub fn opus_bitrate(kbps: u32) -> (r: i32)
    requires
        kbps * 1000 <= u32::MAX,
    ensures
        r == (kbps * 1000) as i32,
{
    let bps: u32 = kbps * 1000;
    #[verifier::truncate]
    (bps as i32)
}

/// A bitrate in kbps in bits per second, for the AAC encoder.
pub fn aac_bitrate(kbps: u32) -> (r: u32)
    requires
        kbps * 1000 <= u32::MAX,
    ensures
        r == kbps * 1000,
{
    kbps * 1000
}

/// Frame `k` of `s` cut into frames of `n` samples: the samples from `k * n`
/// on, at most `n` of them, padded with zeros to `n`.
pub open spec fn padded_frame(s: Seq<i16>, n: nat, k: nat) -> Seq<i16> {
    Seq::new(
        n,
        |j: int|
            if k * n + j < s.len() {
                s[k * n + j]
            } else {
                0i16
            },
    )
}

/// The number of frames of `n` samples that `len` samples fill (the last
/// one possibly partly).
pub open spec fn frame_count(len: nat, n: nat) -> nat {
    if n == 0 {
        0
    } else {
        ((len + n - 1) / (n as int)) as nat
    }
}

proof fn lemma_frame_count_end(start: nat, k: nat, n: nat, len: nat)
    requires
        n > 0,
        start == k * n,
        start >= len,
        k == 0 || (k - 1) * n < len,
    ensures
        k == frame_count(len, n),
{
    assert(k == (len + n - 1) / (n as int)) by (nonlinear_arith)
        requires
            n > 0,
            k * n >= len,
            k == 0 || (k - 1) * n < len,
    ;
}

/// Framing keeps every sample in place: sample `i` is sample `i % n` of
/// frame `i / n`, the frames end with the last sample's frame (with no
/// empty frame after it), and what the last frame holds past the samples
/// is silence.
pub proof fn law_frames_keep_samples(s: Seq<i16>, n: nat, i: int, k: nat, j: int)
    requires
        n > 0,
    ensures
        0 <= i < s.len() ==> i / (n as int) < frame_count(s.len(), n) && padded_frame(
            s,
            n,
            (i / (n as int)) as nat,
        )[i % (n as int)] == s[i],
        frame_count(s.len(), n) * n >= s.len(),
        frame_count(s.len(), n) > 0 ==> (frame_count(s.len(), n) - 1) * n < s.len(),
        0 <= j < n && k * n + j >= s.len() ==> padded_frame(s, n, k)[j] == 0,
{
    let len = s.len();
    let c = frame_count(len, n);
    assert(c * n >= len && (c > 0 ==> (c - 1) * n < len)) by (nonlinear_arith)
        requires
            n > 0,
            c == (len + n - 1) / (n as int),
    ;
    if 0 <= i < len {
        let q = i / (n as int);
        let r = i % (n as int);
        assert(q * n + r == i && 0 <= r < n && 0 <= q) by (nonlinear_arith)
            requires
                n > 0,
                q == i / (n as int),
                r == i % (n as int),
                0 <= i,
        ;
        assert(q < c) by (nonlinear_arith)
            requires
                q * n + r == i,
                0 <= r,
                i < len,
                c * n >= len,
                n > 0,
        ;
    }
}

/// Cuts interleaved samples into encoder frames of `n` samples (as
/// `chunks(n)` does), the last one padded with zeros to `n`.
pub fn chunk_frames(samples: &[i16], n: usize) -> (r: Vec<Vec<i16>>)
    requires
        n > 0,
    ensures
        r.len() == frame_count(samples@.len(), n as nat),
        forall|k: int|
            0 <= k < r.len() ==> (#[trigger] r@[k])@ == padded_frame(samples@, n as nat, k as nat),
{
    let mut out: Vec<Vec<i16>> = Vec::new();
    let mut start: usize = 0;
    let ghost mut k: nat = 0;
    while start < samples.len()
        invariant
            n > 0,
            start == k * n,
            out.len() == k,
            k == 0 || (k - 1) * n < samples@.len(),
            forall|i: int|
                0 <= i < out.len() ==> (#[trigger] out@[i])@ == padded_frame(
                    samples@,
                    n as nat,
                    i as nat,
                ),
        decreases samples.len() - start,
    {
        let mut frame: Vec<i16> = Vec::new();
        let mut j: usize = 0;
        while j < n
            invariant
                n > 0,
                start == k * n,
                start < samples.len(),
                j <= n,
                frame@ == padded_frame(samples@, n as nat, k).take(j as int),
            decreases n - j,
        {
            let x: i16 = if j < samples.len() - start {
                samples[start + j]
            } else {
                0
            };
            frame.push(x);
            j = j + 1;
            assert(frame@ =~= padded_frame(samples@, n as nat, k).take(j as int));
        }
        assert(frame@ =~= padded_frame(samples@, n as nat, k));
        out.push(frame);
        proof {
            k = k + 1;
        }
        if samples.len() - start <= n {
            proof {
                assert(start + n >= samples.len());
                assert((k - 1) * n + n == k * n) by (nonlinear_arith);
                lemma_frame_count_end((k * n) as nat, k, n as nat, samples@.len());
                assert(k == frame_count(samples@.len(), n as nat));
            }
            return out;
        }
        start = start + n;
        assert(start == k * n) by (nonlinear_arith)
            requires
                start == (k - 1) * n + n,
        ;
    }
    proof {
        lemma_frame_count_end(start as nat, k, n as nat, samples@.len());
    }
    out
}

/// The four little-endian bytes of a `u32`.
pub open spec fn le32(v: u32) -> Seq<u8> {
    seq![
        (v % 256) as u8,
        ((v / 256) % 256) as u8,
        ((v / 65536) % 256) as u8,
        (v / 16777216) as u8,
    ]
}

/// A length written as four bytes reads back little-endian: the first byte
/// is the lowest.
pub proof fn law_le32_reads_back(v: u32)
    ensures
        le32(v)[0] + 256 * le32(v)[1] + 65536 * le32(v)[2] + 16777216 * le32(v)[3] == v,
        le32(v).len() == 4,
{
    assert((v % 256) + 256 * ((v / 256) % 256) + 65536 * ((v / 65536) % 256) + 16777216 * (v / 16777216) == v)
        by (nonlinear_arith);
}

/// A stream of one packet is its length, then the packet.
pub proof fn law_single_packet_stream(x: Vec<u8>)
    ensures
        prefixed(seq![x]) == le32(x@.len() as u32) + x@,
{
    let one = seq![x];
    assert(one.drop_last() =~= Seq::<Vec<u8>>::empty());
    assert(one.last() == x);
    assert(prefixed(one.drop_last()) == Seq::<u8>::empty());
    assert(prefixed(one) =~= Seq::<u8>::empty() + le32(x@.len() as u32) + x@);
    assert(Seq::<u8>::empty() + le32(x@.len() as u32) + x@ =~= le32(x@.len() as u32) + x@);
}

/// Packets one after another, each behind its length as four
/// little-endian bytes (the length taken as `u32`).
pub open spec fn prefixed(p: Seq<Vec<u8>>) -> Seq<u8>
    decreases p.len(),
{
    if p.len() == 0 {
        Seq::empty()
    } else {
        prefixed(p.drop_last()) + le32(p.last()@.len() as u32) + p.last()@
    }
}

/// The raw Opus stream that `onas audio` writes: every packet behind its
/// length as a little-endian `u32`.
pub fn length_prefixed(packets: &Vec<Vec<u8>>) -> (r: Vec<u8>)
    ensures
        r@ == prefixed(packets@),
{
    let mut out: Vec<u8> = Vec::new();
    let mut i: usize = 0;
    while i < packets.len()
        invariant
            i <= packets.len(),
            out@ == prefixed(packets@.take(i as int)),
        decreases packets.len() - i,
    {
        let p = &packets[i];
        let n: u32 = #[verifier::truncate] (p.len() as u32);
        let ghost before = out@;
        out.push((n % 256) as u8);
        out.push(((n / 256) % 256) as u8);
        out.push(((n / 65536) % 256) as u8);
        out.push((n / 16777216) as u8);
        let mut j: usize = 0;
        while j < p.len()
            invariant
                j <= p.len(),
                out@ == before + le32(n) + p@.take(j as int),
            decreases p.len() - j,
        {
            out.push(p[j]);
            j = j + 1;
            assert(out@ =~= before + le32(n) + p@.take(j as int));
        }
        i = i + 1;
        proof {
            let t = packets@.take(i as int);
            assert(t.drop_last() =~= packets@.take(i - 1));
            assert(t.last() == packets@[i - 1]);
            assert(p@.take(p.len() as int) =~= p@);
            assert(out@ =~= prefixed(t));
        }
    }
    assert(packets@.take(packets.len() as int) =~= packets@);
    out
}

// ─── AAC (fdk-aac) ───────────────────────────────────────────────────────────

/// The AAC encoder of fdk-aac, an opaque handle to the C library's state.
#[verifier::external_type_specification]
#[verifier::external_body]
pub struct ExAacEncoder(fdk_aac::enc::Encoder);

/// The audio object type that an AAC encoder is opened with.
#[derive(Debug, Clone, Copy, PartialEq, Eq, Structural)]
pub enum AacProfile {
    LowComplexity,
}

/// How an AAC encoder frames the bytes it writes.
#[derive(Debug, Clone, Copy, PartialEq, Eq, Structural)]
pub enum AacTransport {
    Adts,
}

/// The parameters of an AAC encoder: channel mode, sample rate, constant
/// bitrate in bits per second, profile, framing, and the size of the buffer
/// that each frame is written into.
#[derive(Debug, Clone, Copy, PartialEq, Eq, Structural)]
pub struct AacConfig {
    pub mode: AacChannels,
    pub sample_rate: u32,
    pub bit_rate: u32,
    pub profile: AacProfile,
    pub transport: AacTransport,
    pub out_capacity: usize,
}

/// The encoder this tool opens: AAC-LC with ADTS framing, each frame written
/// into an 8192-byte buffer.
pub open spec fn aac_params(mode: AacChannels, sample_rate: u32, bit_rate: u32) -> AacConfig {
    AacConfig {
        mode,
        sample_rate,
        bit_rate,
        profile: AacProfile::LowComplexity,
        transport: AacTransport::Adts,
        out_capacity: 8192,
    }
}

/// Builds the parameters of `aac_params`.
pub fn aac_config(mode: AacChannels, sample_rate: u32, bit_rate: u32) -> (r: AacConfig)
    ensures
        r == aac_params(mode, sample_rate, bit_rate),
{
    AacConfig {
        mode,
        sample_rate,
        bit_rate,
        profile: AacProfile::LowComplexity,
        transport: AacTransport::Adts,
        out_capacity: 8192,
    }
}

/// Why fdk-aac refuses to open an encoder with these parameters: the
/// `Debug` text of its error, or `None` when it opens one.
pub uninterp spec fn aac_init_failure(cfg: AacConfig) -> Option<Seq<char>>;

/// What such an encoder gives when it is handed the last of `frames`, the
/// earlier ones having been handed to it before in order: the bytes it
/// writes, or the `Debug` text of its error. The encoder keeps state from
/// frame to frame, so the result depends on every frame handed so far.
pub uninterp spec fn aac_frame_output(cfg: AacConfig, frames: Seq<Seq<i16>>) -> Result<Seq<u8>, Seq<char>>;

/// An open fdk-aac encoder, with the parameters it was opened with and the
/// frames handed to it so far.
struct AacEncoder {
    enc: Encoder,
    cfg: AacConfig,
    fed: Ghost<Seq<Seq<i16>>>,
}

/// `fdk_aac::enc::Encoder::new` with the profile, framing, constant bitrate,
/// sample rate and channel mode of `cfg`; the error as its `Debug` text.
/// Whether it opens is named `aac_init_failure`; the encoder keeps `cfg`,
/// and no frame has been handed to it.
#[verifier::external_body]
fn aac_encoder_new(cfg: AacConfig) -> (r: Result<AacEncoder, String>)
    ensures
        match r {
            Ok(e) => aac_init_failure(cfg) is None && e.cfg == cfg && e.fed@ == Seq::<Seq<i16>>::empty(),
            Err(m) => aac_init_failure(cfg) == Some(m@),
        },
{
    let params = EncoderParams {
        bit_rate: BitRate::Cbr(cfg.bit_rate),
        sample_rate: cfg.sample_rate,
        transport: match cfg.transport { AacTransport::Adts => Transport::Adts },
        channels: match cfg.mode { AacChannels::Mono => ChannelMode::Mono, AacChannels::Stereo => ChannelMode::Stereo },
        audio_object_type: match cfg.profile { AacProfile::LowComplexity => AudioObjectType::Mpeg4LowComplexity },
    };
    match Encoder::new(params) {
        Ok(enc) => Ok(AacEncoder { enc, cfg, fed: Ghost(Seq::empty()) }),
        Err(e) => Err(format!("{:?}", e)),
    }
}

/// `Encoder::encode` of one frame into a buffer of the encoder's
/// `out_capacity` bytes, giving the bytes it reports as written; the error
/// as its `Debug` text. The frame is added to the frames handed so far, and
/// the result is named `aac_frame_output` over the encoder's parameters and
/// those frames.
#[verifier::external_body]
fn aac_encode_frame(enc: &mut AacEncoder, frame: &[i16]) -> (r: Result<Vec<u8>, String>)
    ensures
        final(enc).cfg == old(enc).cfg,
        final(enc).fed@ == old(enc).fed@.push(frame@),
        match r {
            Ok(b) => aac_frame_output(old(enc).cfg, final(enc).fed@) == Ok::<Seq<u8>, Seq<char>>(b@),
            Err(m) => aac_frame_output(old(enc).cfg, final(enc).fed@) == Err::<Seq<u8>, Seq<char>>(m@),
        },
{
    let mut out = vec![0u8; enc.cfg.out_capacity];
    match enc.enc.encode(frame, &mut out) {
        Ok(info) => Ok(out[..info.output_size].to_vec()),
        Err(e) => Err(format!("{:?}", e)),
    }
}

/// The stream that an encoder opened with these parameters gives for
/// `frames` handed in order: the bytes of every frame one after another,
/// or the first error.
pub open spec fn aac_stream(cfg: AacConfig, frames: Seq<Seq<i16>>) -> Result<Seq<u8>, Seq<char>>
    decreases frames.len(),
{
    if frames.len() == 0 {
        Ok(Seq::empty())
    } else {
        match aac_stream(cfg, frames.drop_last()) {
            Err(m) => Err(m),
            Ok(b) => match aac_frame_output(cfg, frames) {
                Ok(x) => Ok(b + x),
                Err(m) => Err(m),
            },
        }
    }
}

proof fn lemma_aac_err_stays(cfg: AacConfig, f: Seq<Seq<i16>>, i: int)
    requires
        0 <= i <= f.len(),
        aac_stream(cfg, f.take(i)) is Err,
    ensures
        aac_stream(cfg, f) == aac_stream(cfg, f.take(i)),
    decreases f.len() - i,
{
    if i == f.len() {
        assert(f.take(i) =~= f);
    } else {
        assert(f.drop_last().take(i) =~= f.take(i));
        lemma_aac_err_stays(cfg, f.drop_last(), i);
    }
}

/// The channel mode that a channel count up to 2 selects: 1 is mono, any
/// other count stereo.
pub open spec fn aac_mode(channels: u32) -> AacChannels {
    if channels == 1 {
        AacChannels::Mono
    } else {
        AacChannels::Stereo
    }
}

/// Interleaved samples cut into frames of `n` samples, the last padded
/// with zeros.
pub open spec fn frames_of(s: Seq<i16>, n: nat) -> Seq<Seq<i16>> {
    Seq::new(frame_count(s.len(), n), |k: int| padded_frame(s, n, k as nat))
}

/// The message of an encoder that fdk-aac refuses to open.
pub open spec fn aac_init_message(m: Seq<char>) -> Seq<char> {
    "fdk-aac encoder init: "@ + m + " — is libfdk-aac installed?"@
}

fn message_of(prefix: &str, m: &str, suffix: &str) -> (e: Error)
    ensures
        e@ == seq![prefix@ + m@ + suffix@],
{
    let mut s = String::from_str(prefix);
    s.append(m);
    s.append(suffix);
    Error::msg(s)
}


/// Per-frame encoder results as plain values.
pub open spec fn results_view(v: Seq<Result<Vec<u8>, String>>) -> Seq<Result<Seq<u8>, Seq<char>>> {
    Seq::new(
        v.len(),
        |i: int|
            match v[i] {
                Ok(b) => Ok(b@),
                Err(m) => Err(m@),
            },
    )
}

/// The stream that per-frame encoder results give: the bytes of all
/// frames one after another, or the message of the first failure.
pub open spec fn stream_of(v: Seq<Result<Seq<u8>, Seq<char>>>) -> Result<Seq<u8>, Seq<char>>
    decreases v.len(),
{
    if v.len() == 0 {
        Ok(Seq::empty())
    } else {
        match stream_of(v.drop_last()) {
            Err(m) => Err(m),
            Ok(b) => match v.last() {
                Ok(x) => Ok(b + x),
                Err(m) => Err(m),
            },
        }
    }
}

proof fn lemma_stream_err_stays(v: Seq<Result<Seq<u8>, Seq<char>>>, i: int)
    requires
        0 <= i <= v.len(),
        stream_of(v.take(i)) is Err,
    ensures
        stream_of(v) == stream_of(v.take(i)),
    decreases v.len() - i,
{
    if i == v.len() {
        assert(v.take(i) =~= v);
    } else {
        assert(v.drop_last().take(i) =~= v.take(i));
        lemma_stream_err_stays(v.drop_last(), i);
    }
}

/// Joins the per-frame results of the AAC encoder into the ADTS stream:
/// every frame's bytes in order, or the first failure as
/// `"fdk-aac encode: <message>"`.
pub fn adts_from_frames(encoded: Vec<Result<Vec<u8>, String>>) -> (r: Result<Vec<u8>, Error>)
    ensures
        match stream_of(results_view(encoded@)) {
            Ok(b) => r matches Ok(out) && out@ == b,
            Err(m) => r matches Err(e) && e@ == seq!["fdk-aac encode: "@ + m],
        },
{
    let ghost v = results_view(encoded@);
    let mut out: Vec<u8> = Vec::new();
    let mut i: usize = 0;
    while i < encoded.len()
        invariant
            i <= encoded.len(),
            v == results_view(encoded@),
            stream_of(v.take(i as int)) == Ok::<Seq<u8>, Seq<char>>(out@),
        decreases encoded.len() - i,
    {
        let ghost t = v.take(i + 1);
        proof {
            assert(t.drop_last() =~= v.take(i as int));
            assert(t.last() == v[i as int]);
        }
        match &encoded[i] {
            Ok(bytes) => {
                let ghost before = out@;
                let mut j: usize = 0;
                while j < bytes.len()
                    invariant
                        j <= bytes.len(),
                        out@ == before + bytes@.take(j as int),
                    decreases bytes.len() - j,
                {
                    out.push(bytes[j]);
                    j = j + 1;
                    assert(out@ =~= before + bytes@.take(j as int));
                }
                assert(bytes@.take(bytes.len() as int) =~= bytes@);
            },
            Err(m) => {
                proof {
                    assert(v[i as int] == Err::<Seq<u8>, Seq<char>>(m@));
                    assert(stream_of(t) == Err::<Seq<u8>, Seq<char>>(m@));
                    lemma_stream_err_stays(v, i + 1);
                }
                let mut text = String::from_str("fdk-aac encode: ");
                text.append(m.as_str());
                return Err(Error::msg(text));
            },
        }
        i = i + 1;
    }
    assert(v.take(encoded.len() as int) =~= v);
    Ok(out)
}

/// Encodes interleaved 16-bit samples as an ADTS AAC-LC stream with
/// fdk-aac: more than 2 channels is refused; the encoder is opened with
/// the channel mode, the sample rate and the bitrate in bits per second;
/// the samples are cut into frames of 1024 per channel, the last padded
/// with zeros, and handed to it in order; the bytes it gives for every
/// frame are concatenated, and its first failure ends the stream.
pub fn encode_m4a(samples: &[i16], channels: u32, sample_rate: u32, bitrate_kbps: u32) -> (r: Result<Vec<u8>, Error>)
    requires
        bitrate_kbps * 1000 <= u32::MAX,
        channels > 0,
    ensures
        channels > 2 ==> (r matches Err(e) && e@ == seq![aac_channels_message(channels)]),
        channels <= 2 ==> match aac_init_failure(aac_params(aac_mode(channels), sample_rate, (bitrate_kbps * 1000) as u32)) {
            Some(m) => r matches Err(e) && e@ == seq![aac_init_message(m)],
            None => match aac_stream(
                aac_params(aac_mode(channels), sample_rate, (bitrate_kbps * 1000) as u32),
                frames_of(samples@, (AAC_FRAME * channels) as nat),
            ) {
                Ok(b) => r matches Ok(out) && out@ == b,
                Err(m) => r matches Err(e) && e@ == seq!["fdk-aac encode: "@ + m],
            },
        },
{
    let mode = match aac_channels(channels) {
        Ok(m) => m,
        Err(e) => return Err(e),
    };
    let br = aac_bitrate(bitrate_kbps);
    let cfg = aac_config(mode, sample_rate, br);
    let mut enc = match aac_encoder_new(cfg) {
        Ok(enc) => enc,
        Err(m) => {
            return Err(message_of("fdk-aac encoder init: ", m.as_str(), " — is libfdk-aac installed?"));
        },
    };
    let frame_len: usize = AAC_FRAME * (channels as usize);
    let frames = chunk_frames(samples, frame_len);
    let ghost all = frames_of(samples@, frame_len as nat);
    assert(frames@.len() == all.len());
    let mut results: Vec<Result<Vec<u8>, String>> = Vec::new();
    let mut failed = false;
    let mut k: usize = 0;
    assert(all.take(0) =~= Seq::<Seq<i16>>::empty());
    while k < frames.len() && !failed
        invariant
            k <= frames.len(),
            frames@.len() == all.len(),
            forall|i: int| 0 <= i < frames.len() ==> (#[trigger] frames@[i])@ == all[i],
            enc.cfg == cfg,
            cfg == aac_params(mode, sample_rate, br),
            enc.fed@ == all.take(k as int),
            stream_of(results_view(results@)) == aac_stream(cfg, enc.fed@),
            failed ==> aac_stream(cfg, enc.fed@) is Err,
        decreases frames.len() - k,
    {
        let ghost old_results = results@;
        let ghost old_fed = enc.fed@;
        let x = aac_encode_frame(&mut enc, frames[k].as_slice());
        if x.is_err() {
            failed = true;
        }
        let ghost xv = match &x {
            Ok(b) => Ok::<Seq<u8>, Seq<char>>(b@),
            Err(m) => Err::<Seq<u8>, Seq<char>>(m@),
        };
        results.push(x);
        proof {
            let rv = results_view(results@);
            assert(rv.drop_last() =~= results_view(old_results));
            assert(rv.last() == xv);
            assert(enc.fed@.drop_last() =~= old_fed);
            assert(all.take(k + 1) =~= all.take(k as int).push(all[k as int]));
        }
        k = k + 1;
    }
    proof {
        if failed {
            lemma_aac_err_stays(cfg, all, k as int);
        } else {
            assert(all.take(k as int) =~= all);
        }
    }
    adts_from_frames(results)
}

/// The packets that per-frame encoder results give: every frame's bytes as
/// one packet, in order, or the message of the first failure.
pub open spec fn parts_of(v: Seq<Result<Seq<u8>, Seq<char>>>) -> Result<Seq<Seq<u8>>, Seq<char>>
    decreases v.len(),
{
    if v.len() == 0 {
        Ok(Seq::empty())
    } else {
        match parts_of(v.drop_last()) {
            Err(m) => Err(m),
            Ok(p) => match v.last() {
                Ok(x) => Ok(p.push(x)),
                Err(m) => Err(m),
            },
        }
    }
}

proof fn lemma_parts_err_stays(v: Seq<Result<Seq<u8>, Seq<char>>>, i: int)
    requires
        0 <= i <= v.len(),
        parts_of(v.take(i)) is Err,
    ensures
        parts_of(v) == parts_of(v.take(i)),
    decreases v.len() - i,
{
    if i == v.len() {
        assert(v.take(i) =~= v);
    } else {
        assert(v.drop_last().take(i) =~= v.take(i));
        lemma_parts_err_stays(v.drop_last(), i);
    }
}

/// The packets of a byte-packet list as plain values.
pub open spec fn packets_view(v: Seq<Vec<u8>>) -> Seq<Seq<u8>> {
    Seq::new(v.len(), |i: int| v[i]@)
}

/// Turns the per-frame results of the AAC encoder into one packet per
/// frame, in order, or the first failure as `"fdk-aac encode: <message>"`.
pub fn packets_from_frames(encoded: Vec<Result<Vec<u8>, String>>) -> (r: Result<Vec<Vec<u8>>, Error>)
    ensures
        match parts_of(results_view(encoded@)) {
            Ok(p) => r matches Ok(out) && packets_view(out@) == p,
            Err(m) => r matches Err(e) && e@ == seq!["fdk-aac encode: "@ + m],
        },
{
    let ghost v = results_view(encoded@);
    let mut out: Vec<Vec<u8>> = Vec::new();
    let mut i: usize = 0;
    assert(v.take(0) =~= Seq::<Result<Seq<u8>, Seq<char>>>::empty());
    assert(packets_view(out@) =~= Seq::<Seq<u8>>::empty());
    while i < encoded.len()
        invariant
            i <= encoded.len(),
            v == results_view(encoded@),
            parts_of(v.take(i as int)) == Ok::<Seq<Seq<u8>>, Seq<char>>(packets_view(out@)),
        decreases encoded.len() - i,
    {
        let ghost t = v.take(i + 1);
        proof {
            assert(t.drop_last() =~= v.take(i as int));
            assert(t.last() == v[i as int]);
        }
        match &encoded[i] {
            Ok(bytes) => {
                let ghost before = packets_view(out@);
                out.push(bytes.clone());
                assert(packets_view(out@) =~= before.push(bytes@));
            },
            Err(m) => {
                proof {
                    assert(v[i as int] == Err::<Seq<u8>, Seq<char>>(m@));
                    lemma_parts_err_stays(v, i + 1);
                }
                let mut text = String::from_str("fdk-aac encode: ");
                text.append(m.as_str());
                return Err(Error::msg(text));
            },
        }
        i = i + 1;
    }
    assert(v.take(encoded.len() as int) =~= v);
    Ok(out)
}

/// The packets that an encoder opened with these parameters gives for
/// `frames` handed in order: one per frame, or the first error.
pub open spec fn aac_parts(cfg: AacConfig, frames: Seq<Seq<i16>>) -> Result<Seq<Seq<u8>>, Seq<char>>
    decreases frames.len(),
{
    if frames.len() == 0 {
        Ok(Seq::empty())
    } else {
        match aac_parts(cfg, frames.drop_last()) {
            Err(m) => Err(m),
            Ok(p) => match aac_frame_output(cfg, frames) {
                Ok(x) => Ok(p.push(x)),
                Err(m) => Err(m),
            },
        }
    }
}

proof fn lemma_aac_parts_err_stays(cfg: AacConfig, f: Seq<Seq<i16>>, i: int)
    requires
        0 <= i <= f.len(),
        aac_parts(cfg, f.take(i)) is Err,
    ensures
        aac_parts(cfg, f) == aac_parts(cfg, f.take(i)),
    decreases f.len() - i,
{
    if i == f.len() {
        assert(f.take(i) =~= f);
    } else {
        assert(f.drop_last().take(i) =~= f.take(i));
        lemma_aac_parts_err_stays(cfg, f.drop_last(), i);
    }
}

/// Encodes interleaved 16-bit samples with fdk-aac as `encode_m4a` does,
/// but keeps the bytes of every frame as a packet of its own (for a
/// container that holds AAC frame by frame).
pub fn aac_packets(samples: &[i16], channels: u32, sample_rate: u32, bitrate_kbps: u32) -> (r: Result<Vec<Vec<u8>>, Error>)
    requires
        bitrate_kbps * 1000 <= u32::MAX,
        channels > 0,
    ensures
        channels > 2 ==> (r matches Err(e) && e@ == seq![aac_channels_message(channels)]),
        channels <= 2 ==> match aac_init_failure(aac_params(aac_mode(channels), sample_rate, (bitrate_kbps * 1000) as u32)) {
            Some(m) => r matches Err(e) && e@ == seq![aac_init_message(m)],
            None => match aac_parts(
                aac_params(aac_mode(channels), sample_rate, (bitrate_kbps * 1000) as u32),
                frames_of(samples@, (AAC_FRAME * channels) as nat),
            ) {
                Ok(p) => r matches Ok(out) && packets_view(out@) == p,
                Err(m) => r matches Err(e) && e@ == seq!["fdk-aac encode: "@ + m],
            },
        },
{
    let mode = match aac_channels(channels) {
        Ok(m) => m,
        Err(e) => return Err(e),
    };
    let br = aac_bitrate(bitrate_kbps);
    let cfg = aac_config(mode, sample_rate, br);
    let mut enc = match aac_encoder_new(cfg) {
        Ok(enc) => enc,
        Err(m) => {
            return Err(message_of("fdk-aac encoder init: ", m.as_str(), " — is libfdk-aac installed?"));
        },
    };
    let frame_len: usize = AAC_FRAME * (channels as usize);
    let frames = chunk_frames(samples, frame_len);
    let ghost all = frames_of(samples@, frame_len as nat);
    assert(frames@.len() == all.len());
    let mut results: Vec<Result<Vec<u8>, String>> = Vec::new();
    let mut failed = false;
    let mut k: usize = 0;
    assert(all.take(0) =~= Seq::<Seq<i16>>::empty());
    while k < frames.len() && !failed
        invariant
            k <= frames.len(),
            frames@.len() == all.len(),
            forall|i: int| 0 <= i < frames.len() ==> (#[trigger] frames@[i])@ == all[i],
            enc.cfg == cfg,
            cfg == aac_params(mode, sample_rate, br),
            enc.fed@ == all.take(k as int),
            parts_of(results_view(results@)) == aac_parts(cfg, enc.fed@),
            failed ==> aac_parts(cfg, enc.fed@) is Err,
        decreases frames.len() - k,
    {
        let ghost old_results = results@;
        let ghost old_fed = enc.fed@;
        let x = aac_encode_frame(&mut enc, frames[k].as_slice());
        if x.is_err() {
            failed = true;
        }
        let ghost xv = match &x {
            Ok(b) => Ok::<Seq<u8>, Seq<char>>(b@),
            Err(m) => Err::<Seq<u8>, Seq<char>>(m@),
        };
        results.push(x);
        proof {
            let rv = results_view(results@);
            assert(rv.drop_last() =~= results_view(old_results));
            assert(rv.last() == xv);
            assert(enc.fed@.drop_last() =~= old_fed);
            assert(all.take(k + 1) =~= all.take(k as int).push(all[k as int]));
        }
        k = k + 1;
    }
    proof {
        if failed {
            lemma_aac_parts_err_stays(cfg, all, k as int);
        } else {
            assert(all.take(k as int) =~= all);
        }
    }
    packets_from_frames(results)
}

} // verus!
