use onas::audio::{adts_from_frames, encode_m4a, aac_channels, chunk_frames, frames, length_prefixed, opus_bitrate, opus_channels, AacChannels, OpusChannels};
use onas::cli::{AudioArgs, AudioFmt, FrameArgs, FrameFmt, ImageArgs, MetaArgs, VideoArgs, VideoAudioCodec, VideoCodec};
use onas::error::Error;
use onas::exitcode;
use onas::image::{decoder_result, encoder_result, DecodeStep, decode_jpeg, decode_png, decode_via_image, encode_jpeg, encode_png, encode_webp, fill_dims, parse_resize, Fmt, Rgba8};
use onas::frame::{frame_wanted, pick_frame};
use onas::meta::{self, audio_dump, audio_lines, AudioInfo, exif_dump, exif_lines, plan_tag_edits, Class, MetaOp, TagEdit, TagKind};
use onas::mkv::{simple_block, write_mkv, AudioPacket, MkvElement, VideoPacket};
use onas::subtitle::srt_to_ass;
use onas::video::{self, copy_strided, even_dims, resample, resolve_dims, is_avcc, is_srt, parse_opts, probe_tracks, select_decoder, BlockRoute, DecoderKind, Packets, TrackEntry, TrackKind, YuvFrame};
use onas::{run_audio, run_frame, run_image, run_meta, run_video};

fn err_chain(e: &Error) -> Vec<String> {
    e.chain.clone()
}

fn chain_of(msgs: &[&str]) -> Error {
    let mut e = Error::msg(msgs[msgs.len() - 1].to_string());
    for m in msgs[..msgs.len() - 1].iter().rev() {
        e = e.context(m.to_string());
    }
    e
}

fn video_args(output: &str) -> VideoArgs {
    VideoArgs {
        input: "in.mp4".to_string(),
        output: output.to_string(),
        vcodec: VideoCodec::H264,
        acodec: VideoAudioCodec::Opus,
        crf: 23,
        vbitrate: None,
        abitrate: 192,
        resize: None,
        sub: None,
        hardsub: false,
        threads: 0,
        opts: vec![],
    }
}

fn audio_args(output: &str, format: Option<AudioFmt>) -> AudioArgs {
    AudioArgs { input: "in.wav".to_string(), output: output.to_string(), format, bitrate: 192, compression: 5 }
}

fn frame_args(output: &str, format: Option<FrameFmt>) -> FrameArgs {
    FrameArgs {
        input: "in.mkv".to_string(),
        output: output.to_string(),
        at: None,
        at_frame: None,
        format,
        quality: 90,
        resize: None,
    }
}

fn meta_args(file: &str, dump: bool, set: &[&str], remove: &[&str], strip: bool) -> MetaArgs {
    MetaArgs {
        file: file.to_string(),
        dump,
        set: set.iter().map(|s| s.to_string()).collect(),
        remove: remove.iter().map(|s| s.to_string()).collect(),
        strip,
    }
}

// ─── exit codes ──────────────────────────────────────────────────────────────

#[test]
fn exit_codes_follow_sysexits() {
    assert_eq!(exitcode::OK, 0);
    assert_eq!(exitcode::GENERAL_ERROR, 1);
    assert_eq!(exitcode::USAGE, 64);
    assert_eq!(exitcode::DATA_ERROR, 65);
    assert_eq!(exitcode::NO_INPUT, 66);
    assert_eq!(exitcode::UNIMPLEMENTED, 69);
    assert_eq!(exitcode::CODEC_ERROR, 70);
    assert_eq!(exitcode::CANT_CREATE_OUTPUT, 73);
}

#[test]
fn classify_input_and_output_access() {
    assert_eq!(exitcode::classify(&chain_of(&["reading photo.png", "No such file"])), exitcode::NO_INPUT);
    assert_eq!(exitcode::classify(&chain_of(&["Opening in.mkv", "denied"])), exitcode::NO_INPUT);
    assert_eq!(exitcode::classify(&chain_of(&["writing out.png", "disk full"])), exitcode::CANT_CREATE_OUTPUT);
    assert_eq!(exitcode::classify(&chain_of(&["creating out.flac", "x"])), exitcode::CANT_CREATE_OUTPUT);
}

#[test]
fn classify_phrases_in_order() {
    let hardsub = "--hardsub is not yet implemented. Use soft subtitle embed (omit --hardsub).";
    assert_eq!(exitcode::classify(&chain_of(&[hardsub])), exitcode::UNIMPLEMENTED);
    assert_eq!(exitcode::classify(&chain_of(&["no audio track"])), exitcode::DATA_ERROR);
    assert_eq!(exitcode::classify(&chain_of(&["not audio codec params"])), exitcode::DATA_ERROR);
    assert_eq!(exitcode::classify(&chain_of(&["no video track in input"])), exitcode::DATA_ERROR);
    assert_eq!(exitcode::classify(&chain_of(&["JPEG decode", "bad marker"])), exitcode::CODEC_ERROR);
    assert_eq!(exitcode::classify(&chain_of(&["H.265 encoder", "x"])), exitcode::CODEC_ERROR);
    assert_eq!(
        exitcode::classify(&chain_of(&["--resize must be WIDTHxHEIGHT, e.g. 1920x1080 or 1920x0"])),
        exitcode::USAGE
    );
    assert_eq!(exitcode::classify(&chain_of(&["invalid width", "invalid digit found in string"])), exitcode::USAGE);
    assert_eq!(exitcode::classify(&chain_of(&["--hardsub requires --sub <file>"])), exitcode::USAGE);
    assert_eq!(exitcode::classify(&chain_of(&["JPEG: bad pixel buffer"])), exitcode::DATA_ERROR);
    assert_eq!(exitcode::classify(&chain_of(&["matroska read tag", "malformed"])), exitcode::DATA_ERROR);
    assert_eq!(exitcode::classify(&chain_of(&["Symphonia probe", "end of stream"])), exitcode::GENERAL_ERROR);
}

#[test]
fn classify_outermost_match_wins() {
    // the outer context decides, though an inner message matches another code
    assert_eq!(exitcode::classify(&chain_of(&["reading a.jxl", "JXL decode"])), exitcode::NO_INPUT);
    // an unmatched outer message leaves the decision to the inner one
    assert_eq!(exitcode::classify(&chain_of(&["step one", "writing out.mkv"])), exitcode::CANT_CREATE_OUTPUT);
}

#[test]
fn classify_unmatched_is_general() {
    assert_eq!(exitcode::classify(&chain_of(&["something odd", "happened"])), exitcode::GENERAL_ERROR);
    assert_eq!(exitcode::classify(&Error { chain: vec![] }), exitcode::GENERAL_ERROR);
}

#[test]
fn context_puts_message_first() {
    let e = Error::msg("root".to_string()).context("middle".to_string()).context("outer".to_string());
    assert_eq!(err_chain(&e), vec!["outer", "middle", "root"]);
    assert_eq!(e.render(), "outer: middle: root");
    assert_eq!(Error::msg("only".to_string()).render(), "only");
}

#[test]
fn message_code_single() {
    assert_eq!(exitcode::message_code("Reading X"), Some(exitcode::NO_INPUT));
    assert_eq!(exitcode::message_code("fine"), None);
}

// ─── cli ─────────────────────────────────────────────────────────────────────

#[test]
fn audio_target_from_extension() {
    assert_eq!(audio_args("out.flac", None).target_fmt().unwrap(), AudioFmt::Flac);
    assert_eq!(audio_args("out.FLAC", None).target_fmt().unwrap(), AudioFmt::Flac);
    assert_eq!(audio_args("dir/out.opus", None).target_fmt().unwrap(), AudioFmt::Opus);
    assert_eq!(audio_args("out.m4a", None).target_fmt().unwrap(), AudioFmt::M4a);
    assert_eq!(audio_args("out.Aac", None).target_fmt().unwrap(), AudioFmt::M4a);
}

#[test]
fn audio_target_forced_format_wins() {
    assert_eq!(audio_args("output.bin", Some(AudioFmt::Opus)).target_fmt().unwrap(), AudioFmt::Opus);
    assert_eq!(audio_args("out.flac", Some(AudioFmt::M4a)).target_fmt().unwrap(), AudioFmt::M4a);
}

#[test]
fn audio_target_unknown_extension() {
    let e = audio_args("out.MP3", None).target_fmt().unwrap_err();
    assert_eq!(err_chain(&e), vec!["Cannot detect audio format from extension", "Some(\"mp3\"); use --format"]);
    let e = audio_args("noext", None).target_fmt().unwrap_err();
    assert_eq!(err_chain(&e), vec!["Cannot detect audio format from extension", "None; use --format"]);
    assert_eq!(exitcode::classify(&e), exitcode::USAGE);
}

#[test]
fn frame_target_from_extension() {
    assert_eq!(frame_args("t.png", None).target_fmt().unwrap(), FrameFmt::Png);
    assert_eq!(frame_args("t.JPG", None).target_fmt().unwrap(), FrameFmt::Jpeg);
    assert_eq!(frame_args("t.jpeg", None).target_fmt().unwrap(), FrameFmt::Jpeg);
    assert_eq!(frame_args("t.gif", Some(FrameFmt::Png)).target_fmt().unwrap(), FrameFmt::Png);
    let e = frame_args("t.gif", None).target_fmt().unwrap_err();
    assert_eq!(err_chain(&e), vec!["Cannot detect image format from extension", "Some(\"gif\"); use --format"]);
}

// ─── image ───────────────────────────────────────────────────────────────────

#[test]
fn image_format_from_path() {
    assert_eq!(Fmt::from_path("a.jpg").unwrap(), Fmt::Jpeg);
    assert_eq!(Fmt::from_path("a.JPEG").unwrap(), Fmt::Jpeg);
    assert_eq!(Fmt::from_path("a.png").unwrap(), Fmt::Png);
    assert_eq!(Fmt::from_path("a.webp").unwrap(), Fmt::WebP);
    assert_eq!(Fmt::from_path("a.avif").unwrap(), Fmt::Avif);
    assert_eq!(Fmt::from_path("a.jxl").unwrap(), Fmt::Jxl);
    let e = Fmt::from_path("a.bmp").unwrap_err();
    assert_eq!(err_chain(&e), vec!["Unknown image extension", "Some(\"bmp\")"]);
    let e = Fmt::from_path(".hidden").unwrap_err();
    assert_eq!(err_chain(&e), vec!["Unknown image extension", "None"]);
}

#[test]
fn path_extensions_match_std() {
    let cases: Vec<(&str, Option<&str>)> = vec![
        ("a.b.png", Some("png")),
        ("a.png/", Some("png")),
        ("a.png/.", Some("png")),
        ("..png", Some("png")),
        ("dir.png/a", None),
        ("x/..", None),
        (".png", None),
        ("a.", Some("")),
        ("", None),
    ];
    for (p, want) in cases {
        let std_ext = std::path::Path::new(p).extension().and_then(|e| e.to_str());
        assert_eq!(std_ext, want, "std on {:?}", p);
        match want {
            Some("png") => assert_eq!(Fmt::from_path(p).unwrap(), Fmt::Png),
            Some(x) => {
                let e = Fmt::from_path(p).unwrap_err();
                assert_eq!(err_chain(&e), vec!["Unknown image extension".to_string(), format!("Some({:?})", x)]);
            }
            None => {
                let e = Fmt::from_path(p).unwrap_err();
                assert_eq!(err_chain(&e), vec!["Unknown image extension".to_string(), "None".to_string()]);
            }
        }
    }
}

#[test]
fn resize_argument() {
    assert_eq!(parse_resize("1920x1080").unwrap(), (1920, 1080));
    assert_eq!(parse_resize("1920x0").unwrap(), (1920, 0));
    assert_eq!(parse_resize("0x1080").unwrap(), (0, 1080));
    assert_eq!(parse_resize("+5x3").unwrap(), (5, 3));
    let e = parse_resize("1920").unwrap_err();
    assert_eq!(err_chain(&e), vec!["--resize must be WIDTHxHEIGHT, e.g. 1920x1080 or 1920x0"]);
    let e = parse_resize("0x0").unwrap_err();
    assert_eq!(err_chain(&e), vec!["--resize: at least one dimension must be non-zero"]);
    let e = parse_resize("ax5").unwrap_err();
    assert_eq!(err_chain(&e), vec!["invalid width", "invalid digit found in string"]);
    let e = parse_resize("x5").unwrap_err();
    assert_eq!(err_chain(&e), vec!["invalid width", "cannot parse integer from empty string"]);
    let e = parse_resize("5x99999999999").unwrap_err();
    assert_eq!(err_chain(&e), vec!["invalid height", "number too large to fit in target type"]);
    let e = parse_resize("1x2x3").unwrap_err();
    assert_eq!(err_chain(&e), vec!["invalid height", "invalid digit found in string"]);
}

#[test]
fn video_resize_argument_wording() {
    let e = video::parse_resize("1280").unwrap_err();
    assert_eq!(err_chain(&e), vec!["--resize must be WIDTHxHEIGHT e.g. 1280x720 or 0x1080"]);
    assert_eq!(video::parse_resize("1280x720").unwrap(), (1280, 720));
}

#[test]
fn rgb_drops_alpha() {
    let img = Rgba8 { w: 2, h: 1, data: vec![1, 2, 3, 4, 5, 6, 7, 8, 9] };
    assert_eq!(img.rgb(), vec![1, 2, 3, 5, 6, 7]);
}

#[test]
fn png_roundtrip_through_codecs() {
    let img = Rgba8 { w: 2, h: 2, data: (0u8..16).collect() };
    let bytes = encode_png(&img).unwrap();
    let back = decode_png(&bytes).unwrap();
    assert_eq!((back.w, back.h), (2, 2));
    assert_eq!(back.data, img.data);
    let via = decode_via_image(&bytes, "PNG").unwrap();
    assert_eq!(via.data, img.data);
}

#[test]
fn webp_roundtrip_lossless() {
    let img = Rgba8 { w: 3, h: 2, data: (0u8..24).map(|x| x * 7).collect() };
    let bytes = encode_webp(&img).unwrap();
    let back = decode_via_image(&bytes, "WebP").unwrap();
    assert_eq!((back.w, back.h), (3, 2));
    assert_eq!(back.data, img.data);
}

#[test]
fn jpeg_roundtrip_keeps_size() {
    let img = Rgba8 { w: 8, h: 8, data: vec![200; 8 * 8 * 4] };
    let bytes = encode_jpeg(&img, 90).unwrap();
    let back = decode_jpeg(&bytes).unwrap();
    assert_eq!((back.w, back.h), (8, 8));
    assert_eq!(back.data.len(), 8 * 8 * 4);
}

#[test]
fn bad_buffers_and_bad_bytes() {
    let img = Rgba8 { w: 4, h: 4, data: vec![0; 10] };
    assert_eq!(err_chain(&encode_png(&img).unwrap_err()), vec!["PNG: bad pixel buffer"]);
    assert_eq!(err_chain(&encode_jpeg(&img, 90).unwrap_err()), vec!["JPEG: bad pixel buffer"]);
    assert_eq!(err_chain(&encode_webp(&img).unwrap_err()), vec!["WebP: bad pixel buffer"]);
    let e = decode_jpeg(&[1, 2, 3]).unwrap_err();
    assert_eq!(err_chain(&e)[..2], ["malformed input", "JPEG header"]);
    assert_eq!(exitcode::classify(&e), exitcode::DATA_ERROR);
    let e = decode_png(&[1, 2, 3]).unwrap_err();
    assert_eq!(err_chain(&e)[..2], ["malformed input", "PNG data"]);
    assert_eq!(exitcode::classify(&e), exitcode::DATA_ERROR);
    let e = decode_via_image(&[1, 2, 3], "WebP").unwrap_err();
    assert_eq!(err_chain(&e)[..2], ["malformed input", "WebP data"]);
    assert_eq!(exitcode::classify(&e), exitcode::DATA_ERROR);
}

#[test]
fn resize_exact_sets_size() {
    let img = Rgba8 { w: 4, h: 4, data: vec![255; 64] };
    let r = img.resize_exact(2, 3);
    assert_eq!((r.w, r.h), (2, 3));
    assert_eq!(r.data.len(), 2 * 3 * 4);
}

// ─── reports ─────────────────────────────────────────────────────────────────

#[test]
fn reports_of_each_subcommand() {
    let r = run_image(
        ImageArgs { input: "in.png".into(), output: "out.avif".into(), quality: 85, lossless: false, resize: None },
        1920,
        1080,
    );
    assert_eq!(r.command, "image");
    assert_eq!(r.input.as_deref(), Some("in.png"));
    assert_eq!(r.output.as_deref(), Some("out.avif"));
    assert_eq!((r.width, r.height), (Some(1920), Some(1080)));
    assert_eq!(r.message, "1920 × 1080");

    let r = run_audio(audio_args("o.flac", None));
    assert_eq!((r.command, r.message.as_str(), r.width), ("audio", "ok", None));
    let mut va = video_args("o.mkv");
    va.vcodec = VideoCodec::H265;
    let r = run_video(va, 1280, 720);
    assert_eq!((r.command, r.output.as_deref()), ("video", Some("o.mkv")));
    assert_eq!((r.width, r.height), (Some(1280), Some(720)));
    assert_eq!(r.message, "in.mp4 → o.mkv  (1280×720  H265  CRF 23)");
    let r = run_frame(frame_args("t.png", None), 640, 0);
    assert_eq!((r.command, r.message.as_str()), ("frame", "640 × 0"));
    let r = run_meta(meta_args("song.mp3", true, &[], &[], false));
    assert_eq!((r.command, r.input.as_deref(), r.output), ("meta", Some("song.mp3"), None));
}

// ─── meta ────────────────────────────────────────────────────────────────────

#[test]
fn meta_classes() {
    assert_eq!(meta::classify("a.JPG").unwrap(), Class::Image);
    assert_eq!(meta::classify("a.jxl").unwrap(), Class::Image);
    assert_eq!(meta::classify("a.wav").unwrap(), Class::Audio);
    assert_eq!(meta::classify("a.m4a").unwrap(), Class::Audio);
    let e = meta::classify("a.txt").unwrap_err();
    assert_eq!(err_chain(&e), vec!["Cannot determine metadata class from extension", "Some(\"txt\")"]);
}

#[test]
fn meta_decisions() {
    assert_eq!(meta::run(&meta_args("p.jpg", true, &[], &[], false)).unwrap(), MetaOp::Dump(Class::Image));
    assert_eq!(meta::run(&meta_args("t.flac", false, &[], &[], false)).unwrap(), MetaOp::Dump(Class::Audio));
    assert_eq!(meta::run(&meta_args("t.flac", false, &["A=b"], &[], false)).unwrap(), MetaOp::Write(Class::Audio));
    assert_eq!(meta::run(&meta_args("t.mp3", false, &[], &["COMMENT"], false)).unwrap(), MetaOp::Write(Class::Audio));
    assert_eq!(meta::run(&meta_args("p.jpg", false, &[], &[], true)).unwrap(), MetaOp::Write(Class::Image));
    assert_eq!(meta::run(&meta_args("p.jpg", true, &["A=b"], &[], false)).unwrap(), MetaOp::Dump(Class::Image));
    let e = meta::run(&meta_args("t.flac", false, &["A=b"], &[], true)).unwrap_err();
    assert_eq!(err_chain(&e), vec!["--strip cannot be combined with --set or --remove"]);
    let e = meta::run(&meta_args("x.doc", false, &["A=b"], &[], true)).unwrap_err();
    assert_eq!(err_chain(&e), vec!["Cannot determine metadata class from extension", "Some(\"doc\")"]);
}

#[test]
fn set_values_split_at_first_equals() {
    let (k, v) = meta::split_key_value("TrackTitle=My Song=1", Class::Audio).unwrap();
    assert_eq!((k.as_str(), v.as_str()), ("TrackTitle", "My Song=1"));
    let (k, v) = meta::split_key_value("Year=", Class::Image).unwrap();
    assert_eq!((k.as_str(), v.as_str()), ("Year", ""));
    let e = meta::split_key_value("Album", Class::Audio).unwrap_err();
    assert_eq!(err_chain(&e), vec!["--set must be KEY=VALUE, got", "Album"]);
    let e = meta::split_key_value("Album", Class::Image).unwrap_err();
    assert_eq!(err_chain(&e), vec!["--set value must be KEY=VALUE, got", "Album"]);
}

// ─── video ───────────────────────────────────────────────────────────────────

#[test]
fn video_request_checks() {
    assert!(video::run(&video_args("out.mkv")).is_ok());
    let e = video::run(&video_args("out.mp4")).unwrap_err();
    assert_eq!(err_chain(&e), vec!["Output must be .mkv; got", "Some(\"mp4\")"]);
    let e = video::run(&video_args("out.MKV")).unwrap_err();
    assert_eq!(err_chain(&e), vec!["Output must be .mkv; got", "Some(\"MKV\")"]);
    let e = video::run(&video_args("out")).unwrap_err();
    assert_eq!(err_chain(&e), vec!["Output must be .mkv; got", "None"]);
    let mut a = video_args("o.mkv");
    a.hardsub = true;
    let e = video::run(&a).unwrap_err();
    assert_eq!(err_chain(&e), vec!["--hardsub requires --sub <file>"]);
    assert_eq!(exitcode::classify(&e), exitcode::USAGE);
    a.sub = Some("s.srt".into());
    let e = video::run(&a).unwrap_err();
    assert_eq!(exitcode::classify(&e), exitcode::UNIMPLEMENTED);
}

#[test]
fn black_frame() {
    let f = YuvFrame::new(4, 3, 7);
    assert_eq!((f.w, f.h, f.pts), (4, 3, 7));
    assert_eq!(f.y, vec![16u8; 12]);
    assert_eq!(f.u, vec![128u8; 4]);
    assert_eq!(f.v, vec![128u8; 4]);
}

#[test]
fn strided_copy_packs_rows() {
    let src: Vec<u8> = (0u8..20).collect();
    let mut dst = vec![9u8; 1];
    copy_strided(&src, 5, 3, 3, &mut dst);
    assert_eq!(dst, vec![0, 1, 2, 5, 6, 7, 10, 11, 12]);
    let mut empty = vec![1u8, 2];
    copy_strided(&src, 5, 0, 3, &mut empty);
    assert!(empty.is_empty());
}

#[test]
fn srt_becomes_ass_events() {
    let srt = "1\r\n00:00:01,000 --> 00:00:02,500\r\nHello\r\nWorld\r\n\r\n2\n00:00:03,000 --> 00:00:04,000\nBye\n";
    let ass = srt_to_ass(srt);
    assert!(ass.starts_with("[Script Info]\nScriptType: v4.00+\n"));
    assert!(ass.contains("Style: Default,Arial,20,&H00FFFFFF,&H00000000,-1,0,1,2,0,2,10,10,10,1\n"));
    let events: Vec<&str> = ass.lines().filter(|l| l.starts_with("Dialogue")).collect();
    assert_eq!(
        events,
        vec![
            "Dialogue: 0,00:00:01.0,00:00:02.5,Default,,0,0,0,,Hello\\NWorld",
            "Dialogue: 0,00:00:03.0,00:00:04.0,Default,,0,0,0,,Bye",
        ]
    );
    assert!(ass.ends_with("Text\nDialogue: 0,00:00:01.0,00:00:02.5,Default,,0,0,0,,Hello\\NWorld\nDialogue: 0,00:00:03.0,00:00:04.0,Default,,0,0,0,,Bye\n"));
}

#[test]
fn srt_without_cues_is_header_only() {
    let ass = srt_to_ass("");
    assert!(ass.ends_with("Effect,Text\n"));
    assert!(!ass.contains("Dialogue"));
    let ass2 = srt_to_ass("12\njust text\na --> b --> c\n");
    assert_eq!(ass, ass2);
}

#[test]
fn block_bytes_layout() {
    assert_eq!(simple_block(1, 0, true, &[9, 8]), vec![0x81, 0x00, 0x00, 0x80, 9, 8]);
    assert_eq!(simple_block(2, -1, false, &[]), vec![0x82, 0xff, 0xff, 0x00]);
    assert_eq!(simple_block(1, 100_000, false, &[]), vec![0x81, 0x7f, 0xff, 0x00]);
    assert_eq!(simple_block(1, -100_000, false, &[]), vec![0x81, 0x80, 0x00, 0x00]);
    assert_eq!(simple_block(300, 258, false, &[1]), vec![0x41, 0x2c, 0x01, 0x02, 0x00, 1]);
    assert_eq!(simple_block(126, 0, false, &[]), vec![0xfe, 0x00, 0x00, 0x00]);
    assert_eq!(simple_block(127, 0, false, &[]), vec![0x40, 0x7f, 0x00, 0x00, 0x00]);
}

#[test]
fn mkv_layout_counts_tracks_and_blocks() {
    let v = vec![
        VideoPacket { pts: 0, data: vec![1], keyframe: true },
        VideoPacket { pts: 40, data: vec![2], keyframe: false },
    ];
    let a = vec![AudioPacket { pts: 0, data: vec![3] }];
    let els = write_mkv(&v, &a, Some(&[7u8][..]), 1, Some(2), 640, 480, "V_VP9", "A_OPUS");
    let blocks = els.iter().filter(|e| matches!(e, MkvElement::SimpleBlock(_))).count();
    assert_eq!(blocks, 4);
    let entries = els.iter().filter(|e| matches!(e, MkvElement::TrackEntryStart)).count();
    assert_eq!(entries, 3);
    assert!(matches!(els[0], MkvElement::EbmlStart));
    assert!(matches!(els[els.len() - 1], MkvElement::SegmentEnd));
    assert_eq!(els[0].write_context(), Some("write EBML"));
    assert_eq!(els[1].write_context(), None);
    // no audio entry without audio packets
    let els = write_mkv(&v, &vec![], None, 1, Some(2), 640, 480, "V_VP9", "A_OPUS");
    let entries = els.iter().filter(|e| matches!(e, MkvElement::TrackEntryStart)).count();
    assert_eq!(entries, 1);
}

#[test]
fn probe_picks_first_tracks() {
    let tracks = vec![
        TrackEntry { number: 5, kind: TrackKind::Other, codec_id: "S_TEXT/UTF8".into(), video_size: None, default_duration_ns: None },
        TrackEntry { number: 1, kind: TrackKind::Video, codec_id: "V_MPEG4/ISO/AVC".into(), video_size: Some((1920, 1080)), default_duration_ns: Some(40_000_000) },
        TrackEntry { number: 2, kind: TrackKind::Audio, codec_id: "A_AAC".into(), video_size: None, default_duration_ns: None },
        TrackEntry { number: 3, kind: TrackKind::Audio, codec_id: "A_OPUS".into(), video_size: None, default_duration_ns: None },
    ];
    let info = probe_tracks(&tracks).unwrap();
    assert_eq!((info.v_track, info.a_track), (1, Some(2)));
    assert_eq!((info.src_w, info.src_h, info.fps_num, info.fps_den), (1920, 1080, 25000, 1));
    assert_eq!((info.codec_id.as_str(), info.a_codec_id.as_str()), ("V_MPEG4/ISO/AVC", "A_AAC"));

    let only_video = vec![TrackEntry { number: 1, kind: TrackKind::Video, codec_id: "V_AV1".into(), video_size: Some((64, 48)), default_duration_ns: None }];
    let info = probe_tracks(&only_video).unwrap();
    assert_eq!((info.a_track, info.a_codec_id.as_str(), info.fps_num), (None, "A_OPUS", 30));

    let e = probe_tracks(&vec![]).unwrap_err();
    assert_eq!(err_chain(&e), vec!["no video track in input"]);
    assert_eq!(exitcode::classify(&e), exitcode::DATA_ERROR);
    let bad = vec![TrackEntry { number: 1, kind: TrackKind::Video, codec_id: "V_AV1".into(), video_size: None, default_duration_ns: None }];
    let e = probe_tracks(&bad).unwrap_err();
    assert_eq!(err_chain(&e), vec!["video track missing video settings"]);
}

#[test]
fn decoder_choice() {
    assert_eq!(select_decoder("V_MPEG4/ISO/AVC"), (DecoderKind::H264, true));
    assert_eq!(select_decoder("V_MPEGH/ISO/HEVC"), (DecoderKind::H265, true));
    assert_eq!(select_decoder("V_VP9"), (DecoderKind::Vp9, true));
    assert_eq!(select_decoder("V_AV1"), (DecoderKind::Av1, true));
    assert_eq!(select_decoder("V_THEORA"), (DecoderKind::H264, false));
    assert!(is_avcc("V_MPEG4/ISO/AVC"));
    assert!(!is_avcc("AVC1"));
}

#[test]
fn codec_ids_and_dims() {
    assert_eq!(video::video_codec_id(VideoCodec::Copy, "V_VP8"), "V_VP8");
    assert_eq!(video::video_codec_id(VideoCodec::H265, "V_VP8"), "V_MPEGH/ISO/HEVC");
    assert_eq!(video::audio_codec_id(VideoAudioCodec::Flac, "A_AAC"), "A_FLAC");
    assert_eq!(video::audio_codec_id(VideoAudioCodec::Copy, "A_AAC"), "A_AAC");
    assert_eq!(even_dims(1921, 1081), (1920, 1080));
    assert_eq!(even_dims(0, 1), (0, 0));
}

#[test]
fn options_and_subtitle_kind() {
    let opts = parse_opts(&vec!["preset=slow".to_string(), "x=a=b".to_string(), "k=".to_string()]);
    let pairs: Vec<(&str, &str)> = opts.iter().map(|(k, v)| (k.as_str(), v.as_str())).collect();
    assert_eq!(pairs, vec![("preset", "slow"), ("x", "a=b"), ("k", "")]);
    assert!(is_srt("subs.SRT"));
    assert!(!is_srt("subs.ass"));
}

#[test]
fn packet_bookkeeping() {
    let mut p = Packets::new();
    p.on_timestamp(1000);
    assert_eq!(p.on_block(1, 5, true, vec![1], 1, Some(2), true, true), (BlockRoute::CopyVideo, 1005));
    assert_eq!(p.on_block(2, -5, false, vec![2], 1, Some(2), true, true), (BlockRoute::Audio, 995));
    assert_eq!(p.on_block(3, 0, false, vec![3], 1, Some(2), true, true), (BlockRoute::Skip, 1000));
    assert_eq!(p.on_block(1, 0, false, vec![4], 1, Some(2), false, true), (BlockRoute::DecodeVideo, 1000));
    assert_eq!(p.on_block(2, 0, false, vec![9], 1, Some(2), false, false), (BlockRoute::ReencodeAudio, 1000));
    assert_eq!(p.v_pkts.len(), 1);
    assert_eq!(p.a_pkts.len(), 1);
    p.on_encoded(1040, vec![], false);
    p.on_encoded(1040, vec![5], false);
    p.on_flushed(vec![vec![6], vec![], vec![7]]);
    let pts: Vec<i64> = p.v_pkts.iter().map(|x| x.pts).collect();
    assert_eq!(pts, vec![1005, 1040, 1041, 1043]);
    let mut q = Packets::new();
    q.on_flushed(vec![vec![1]]);
    assert_eq!(q.v_pkts[0].pts, 1);
}

// ─── audio ───────────────────────────────────────────────────────────────────

#[test]
fn audio_channel_rules() {
    assert_eq!(opus_channels(1).unwrap(), OpusChannels::Mono);
    assert_eq!(opus_channels(2).unwrap(), OpusChannels::Stereo);
    let e = opus_channels(6).unwrap_err();
    assert_eq!(err_chain(&e), vec!["Opus supports 1 or 2 channels; got 6. Mix down first."]);
    assert_eq!(aac_channels(1).unwrap(), AacChannels::Mono);
    assert_eq!(aac_channels(2).unwrap(), AacChannels::Stereo);
    let e = aac_channels(3).unwrap_err();
    assert_eq!(err_chain(&e), vec!["fdk-aac supports up to 2 channels; got 3"]);
    assert_eq!(opus_bitrate(192), 192_000);
    assert_eq!(frames(10, 2), 5);
}

#[test]
fn frames_are_padded() {
    let s: Vec<i16> = (1..=5).collect();
    let f = chunk_frames(&s, 2);
    assert_eq!(f, vec![vec![1, 2], vec![3, 4], vec![5, 0]]);
    assert!(chunk_frames(&[], 4).is_empty());
    assert_eq!(chunk_frames(&[1, 2], 2), vec![vec![1, 2]]);
}

#[test]
fn opus_stream_is_length_prefixed() {
    let out = length_prefixed(&vec![vec![0xaa, 0xbb], vec![], vec![1; 300]]);
    assert_eq!(&out[..6], &[2, 0, 0, 0, 0xaa, 0xbb]);
    assert_eq!(&out[6..10], &[0, 0, 0, 0]);
    assert_eq!(&out[10..14], &[44, 1, 0, 0]);
    assert_eq!(out.len(), 14 + 300);
}

#[test]
fn aac_stream_is_adts() {
    let samples = vec![0i16; 2 * 1024 * 3];
    let out = encode_m4a(&samples, 2, 48_000, 128).unwrap();
    assert!(!out.is_empty());
    assert_eq!(out[0], 0xff);
    assert_eq!(out[1] & 0xf0, 0xf0);
    let e = encode_m4a(&samples, 6, 48_000, 128).unwrap_err();
    assert_eq!(err_chain(&e), vec!["fdk-aac supports up to 2 channels; got 6"]);
}

#[test]
fn subtitle_cut_must_fall_on_a_character() {
    assert!(onas::subtitle::is_convertible("1\n00:00:01,000 --> 00:00:02,000\nHi\n"));
    assert!(!onas::subtitle::is_convertible("000000000\u{e9}0 --> 1\n"));
    assert!(onas::subtitle::is_convertible("00000000\u{e9}00 --> 1\n"));
    let ass = srt_to_ass("00000000\u{e9}00 --> 1\nx\n");
    assert!(ass.ends_with("Dialogue: 0,00000000\u{e9},1,Default,,0,0,0,,x\n"));
}

#[test]
fn transcode_plan() {
    let info = probe_tracks(&vec![
        TrackEntry { number: 1, kind: TrackKind::Video, codec_id: "V_MPEG4/ISO/AVC".into(), video_size: Some((640, 480)), default_duration_ns: None },
        TrackEntry { number: 2, kind: TrackKind::Audio, codec_id: "A_AAC".into(), video_size: None, default_duration_ns: None },
    ])
    .unwrap();
    let mut a = video_args("o.mkv");
    a.vcodec = VideoCodec::Vp9;
    a.acodec = VideoAudioCodec::Copy;
    let p = video::plan(&a, &info);
    assert_eq!(p.decoder, Some(DecoderKind::H264));
    assert!(!p.unknown_codec);
    assert!(p.avcc);
    assert_eq!((p.v_codec_id.as_str(), p.a_codec_id.as_str()), ("V_VP9", "A_AAC"));
    a.vcodec = VideoCodec::Copy;
    let p = video::plan(&a, &info);
    assert_eq!(p.decoder, None);
    assert_eq!(p.v_codec_id, "V_MPEG4/ISO/AVC");
}

#[test]
fn encoder_results_become_bytes_or_chains() {
    assert_eq!(encoder_result(Some(Ok(vec![1, 2, 3])), "PNG").unwrap(), vec![1, 2, 3]);
    let e = encoder_result(None, "JPEG").unwrap_err();
    assert_eq!(err_chain(&e), vec!["JPEG: bad pixel buffer"]);
    let e = encoder_result(Some(Err("out of memory".to_string())), "WebP").unwrap_err();
    assert_eq!(err_chain(&e), vec!["WebP encode", "out of memory"]);
    assert_eq!(exitcode::classify(&e), exitcode::CODEC_ERROR);
}

#[test]
fn decoder_results_become_images_or_chains() {
    let img = decoder_result(Ok((1, 1, vec![9, 8, 7, 6])), "PNG").unwrap();
    assert_eq!((img.w, img.h, img.data), (1, 1, vec![9, 8, 7, 6]));
    let e = decoder_result(Err((DecodeStep::Header, "bad marker".to_string())), "JPEG").unwrap_err();
    assert_eq!(err_chain(&e), vec!["malformed input", "JPEG header", "bad marker"]);
    let e = decoder_result(Err((DecodeStep::Info, String::new())), "JPEG").unwrap_err();
    assert_eq!(err_chain(&e), vec!["malformed input", "JPEG info"]);
    let e = decoder_result(Err((DecodeStep::Pixels, "truncated".to_string())), "PNG").unwrap_err();
    assert_eq!(err_chain(&e), vec!["malformed input", "PNG data", "truncated"]);
}

#[test]
fn adts_frames_join_until_the_first_failure() {
    let out = adts_from_frames(vec![Ok(vec![1, 2]), Ok(vec![]), Ok(vec![3])]).unwrap();
    assert_eq!(out, vec![1, 2, 3]);
    assert!(adts_from_frames(vec![]).unwrap().is_empty());
    let e = adts_from_frames(vec![Ok(vec![1]), Err("EncodeError".to_string()), Err("later".to_string())])
        .unwrap_err();
    assert_eq!(err_chain(&e), vec!["fdk-aac encode: EncodeError"]);
}

#[test]
fn library_errors_map_to_documented_exit_codes() {
    for bad in ["1920", "0x0", "ax5", "x5", "5x99999999999", "1x2x3"] {
        let e = parse_resize(bad).unwrap_err();
        assert_eq!(exitcode::classify(&e), exitcode::USAGE, "{bad}");
        let e = video::parse_resize(bad).unwrap_err();
        assert_eq!(exitcode::classify(&e), exitcode::USAGE, "{bad}");
    }
    let mut a = video_args("out.mkv");
    a.hardsub = true;
    assert_eq!(exitcode::classify(&video::run(&a).unwrap_err()), exitcode::USAGE);
    a.sub = Some("subs.srt".to_string());
    assert_eq!(exitcode::classify(&video::run(&a).unwrap_err()), exitcode::UNIMPLEMENTED);
    assert_eq!(exitcode::classify(&video::run(&video_args("out.mp4")).unwrap_err()), exitcode::USAGE);
    let e = probe_tracks(&vec![]).unwrap_err();
    assert_eq!(exitcode::classify(&e), exitcode::DATA_ERROR);
    let e = Fmt::from_path("photo.bmp").unwrap_err();
    assert_eq!(exitcode::classify(&e), exitcode::USAGE);
    let e = meta::classify("notes.txt").unwrap_err();
    assert_eq!(exitcode::classify(&e), exitcode::USAGE);
    let e = meta::run(&meta_args("a.flac", false, &["Title=x"], &[], true)).unwrap_err();
    assert_eq!(exitcode::classify(&e), exitcode::USAGE);
    let e = decode_png(b"\xff\xd8\xff\xe0 not a png").unwrap_err();
    assert_eq!(exitcode::classify(&e), exitcode::DATA_ERROR);
    let e = video::split_opts(&vec!["preset".to_string()]).unwrap_err();
    assert_eq!(err_chain(&e), vec!["--opt must be KEY=VALUE", "preset"]);
    assert_eq!(exitcode::classify(&e), exitcode::USAGE);
    let e = encode_m4a(&[0i16; 8], 3, 48_000, 128).unwrap_err();
    assert_eq!(exitcode::classify(&e), exitcode::GENERAL_ERROR);
}

#[test]
fn options_are_checked_before_use() {
    let v = video::split_opts(&vec!["preset=slow".to_string(), "x=a=b".to_string()]).unwrap();
    assert_eq!(v, vec![("preset".to_string(), "slow".to_string()), ("x".to_string(), "a=b".to_string())]);
    let e = video::split_opts(&vec!["decode".to_string()]).unwrap_err();
    assert_eq!(exitcode::classify(&e), exitcode::USAGE);
    let e = video::split_opts(&vec!["a=1".to_string(), "bad".to_string(), "worse".to_string()]).unwrap_err();
    assert_eq!(err_chain(&e), vec!["--opt must be KEY=VALUE", "bad"]);
}

#[test]
fn image_formats_come_from_both_paths() {
    assert_eq!(onas::image::image_formats("a.PNG", "b.jpeg").unwrap(), (Fmt::Png, Fmt::Jpeg));
    let e = onas::image::image_formats("a.bmp", "b.gif").unwrap_err();
    assert_eq!(err_chain(&e), vec!["Unknown image extension", "Some(\"bmp\")"]);
    let e = onas::image::image_formats("a.png", "b").unwrap_err();
    assert_eq!(err_chain(&e), vec!["Unknown image extension", "None"]);
}

#[test]
fn jpeg_quality_reaches_the_encoder() {
    let mut data = Vec::new();
    for i in 0..(16 * 16) {
        data.extend_from_slice(&[(i * 7 % 256) as u8, (i * 13 % 256) as u8, (i * 29 % 256) as u8, 255]);
    }
    let img = Rgba8 { w: 16, h: 16, data };
    let low = encode_jpeg(&img, 10).unwrap();
    let high = encode_jpeg(&img, 95).unwrap();
    assert_ne!(low, high);
    assert!(low.len() < high.len());
}

#[test]
fn longer_pixel_buffers_encode_their_first_pixels() {
    let mut data = vec![200u8; 2 * 2 * 4];
    data.extend_from_slice(&[1, 2, 3, 4, 5, 6, 7, 8]);
    let img = Rgba8 { w: 2, h: 2, data };
    let webp = encode_webp(&img).unwrap();
    let back = decode_via_image(&webp, "WebP").unwrap();
    assert_eq!(back.data, vec![200u8; 16]);
    assert!(encode_jpeg(&img, 90).is_ok());
}

#[test]
fn reencoded_audio_is_timed_by_frames() {
    let mut p = Packets::new();
    p.on_timestamp(500);
    assert_eq!(p.on_block(2, 0, false, vec![1, 2], 1, Some(2), true, false), (BlockRoute::ReencodeAudio, 500));
    assert!(p.a_pkts.is_empty());
    p.on_reencoded(vec![vec![1], vec![2], vec![3]], 960, 48_000);
    let got: Vec<(i64, Vec<u8>)> = p.a_pkts.iter().map(|a| (a.pts, a.data.clone())).collect();
    assert_eq!(got, vec![(0, vec![1]), (20, vec![2]), (40, vec![3])]);
    p.on_reencoded(vec![vec![4], vec![5]], 1024, 44_100);
    assert_eq!((p.a_pkts[3].pts, p.a_pkts[4].pts), (0, 23));
    let info = probe_tracks(&vec![
        TrackEntry { number: 1, kind: TrackKind::Video, codec_id: "V_VP9".into(), video_size: Some((64, 64)), default_duration_ns: None },
        TrackEntry { number: 2, kind: TrackKind::Audio, codec_id: "A_AAC".into(), video_size: None, default_duration_ns: None },
    ])
    .unwrap();
    let mut a = video_args("o.mkv");
    a.acodec = VideoAudioCodec::Opus;
    let plan = video::plan(&a, &info);
    assert!(!plan.a_copy);
    assert_eq!(plan.a_codec_id, "A_OPUS");
    a.acodec = VideoAudioCodec::Copy;
    assert!(video::plan(&a, &info).a_copy);
}

#[test]
fn aac_packets_are_one_per_frame() {
    let samples = vec![0i16; 2 * 1024 * 3];
    let pkts = onas::audio::aac_packets(&samples, 2, 48_000, 128).unwrap();
    let stream = encode_m4a(&samples, 2, 48_000, 128).unwrap();
    assert_eq!(pkts.concat(), stream);
    assert!(pkts.len() <= 3);
    let e = onas::audio::aac_packets(&samples, 3, 48_000, 128).unwrap_err();
    assert_eq!(err_chain(&e), vec!["fdk-aac supports up to 2 channels; got 3"]);
    let e = onas::audio::packets_from_frames(vec![Ok(vec![1]), Err("EncodeError".to_string())]).unwrap_err();
    assert_eq!(err_chain(&e), vec!["fdk-aac encode: EncodeError"]);
    assert_eq!(onas::audio::packets_from_frames(vec![Ok(vec![1]), Ok(vec![])]).unwrap(), vec![vec![1], vec![]]);
}

#[test]
fn aac_encoder_parameters_reach_the_encoder() {
    let samples: Vec<i16> = (0..2 * 1024 * 4).map(|i| ((i * 37) % 2000) as i16 - 1000).collect();
    let a = encode_m4a(&samples, 2, 48_000, 128).unwrap();
    let b = encode_m4a(&samples, 2, 44_100, 128).unwrap();
    let c = encode_m4a(&samples, 2, 48_000, 64).unwrap();
    assert_ne!(a, b);
    assert_ne!(a, c);
}

#[test]
fn tag_edits_are_planned_in_order() {
    let p = plan_tag_edits(TagKind::VorbisComments, Class::Audio, &vec!["COMMENT".into(), "NO SUCH KEY".into()], &vec!["TITLE=My Song".into(), "ARTIST=Jane=Doe".into()], false).unwrap();
    assert!(!p.strip);
    let steps: Vec<String> = p.edits.iter().map(|e| match e {
        TagEdit::Remove(k) => format!("remove {k}"),
        TagEdit::Skip(k) => format!("skip {k}"),
        TagEdit::Assign(k, v) => format!("set {k}={v}"),
    }).collect();
    assert_eq!(steps, vec!["remove COMMENT", "skip NO SUCH KEY", "set TITLE=My Song", "set ARTIST=Jane=Doe"]);
    let p = plan_tag_edits(TagKind::VorbisComments, Class::Audio, &vec!["COMMENT".into()], &vec!["TITLE".into()], true).unwrap();
    assert!(p.strip && p.edits.is_empty());
    let e = plan_tag_edits(TagKind::VorbisComments, Class::Audio, &vec![], &vec!["TITLE".into(), "X=1".into()], false).unwrap_err();
    assert_eq!(err_chain(&e), vec!["--set must be KEY=VALUE, got", "TITLE"]);
    let e = plan_tag_edits(TagKind::VorbisComments, Class::Image, &vec![], &vec!["NO SUCH KEY=1".into()], false).unwrap_err();
    assert_eq!(err_chain(&e), vec!["Not a recognized metadata key for VorbisComments", "'NO SUCH KEY'"]);
    assert_eq!(exitcode::classify(&e), exitcode::USAGE);
}

#[test]
fn zero_side_follows_aspect_ratio() {
    assert_eq!(fill_dims(1920, 1080, 1280, 0), (1280, 720));
    assert_eq!(fill_dims(1920, 1080, 0, 720), (1280, 720));
    assert_eq!(fill_dims(1920, 1080, 640, 480), (640, 480));
    assert_eq!(fill_dims(1001, 77, 1001, 0), (1001, 77));
    assert_eq!(fill_dims(1001, 77, 0, 77), (1001, 77));
    assert_eq!(fill_dims(640, 481, 640 * 3, 0), (1920, 481 * 3));
    // 1000 * 333 / 999 = 333.33.. and 3 * 1 / 2 = 1.5 (halves go up)
    assert_eq!(fill_dims(1000, 999, 0, 333), (333, 333));
    assert_eq!(fill_dims(2, 3, 0, 1), (1, 1));
    assert_eq!(fill_dims(3, 2, 0, 1), (2, 1));
    assert_eq!(fill_dims(1, 3, 0, 1), (0, 1));
    for (w, h, tw, th) in [(1920u32, 1080u32, 0u32, 721u32), (1001, 77, 333, 0), (4000, 3000, 0, 1), (7, 13, 5, 0)] {
        let fw = if tw == 0 { ((w as f64) * (th as f64) / (h as f64)).round() as u32 } else { tw };
        let fh = if th == 0 { ((h as f64) * (fw as f64) / (w as f64)).round() as u32 } else { th };
        assert_eq!(fill_dims(w, h, tw, th), (fw, fh));
    }
    assert_eq!(resolve_dims(1920, 1080, 1281, 0), (1280, 720));
    assert_eq!(resolve_dims(1921, 1081, 0, 0), (0, 0));
    let img = Rgba8 { w: 4, h: 2, data: vec![200u8; 32] };
    let r = img.resize(2, 0);
    assert_eq!((r.w, r.h, r.data.len()), (2, 1, 8));
}

#[test]
fn nearest_neighbour_planes() {
    let src: Vec<u8> = (0..12).collect(); // 4 wide, 3 high
    let mut dst = Vec::new();
    resample(&src, 4, 3, &mut dst, 2, 2);
    // rows 0 and 1*3/2 = 1; columns 0 and 1*4/2 = 2
    assert_eq!(dst, vec![0, 2, 4, 6]);
    resample(&src, 4, 3, &mut dst, 8, 1);
    assert_eq!(dst, vec![0, 0, 1, 1, 2, 2, 3, 3]);
    resample(&src, 4, 3, &mut dst, 0, 5);
    assert!(dst.is_empty());
    let mut f = YuvFrame::new(4, 2, 9);
    f.y = vec![1, 2, 3, 4, 5, 6, 7, 8];
    f.u = vec![10, 20];
    f.v = vec![30, 40];
    let g = f.scaled_to(2, 4);
    assert_eq!((g.w, g.h, g.pts), (2, 4, 9));
    assert_eq!(g.y, vec![1, 3, 1, 3, 5, 7, 5, 7]);
    assert_eq!(g.u, vec![10, 10]);
    assert_eq!(g.v, vec![30, 30]);
}

#[test]
fn refused_user_text_exits_with_usage() {
    let e = Fmt::from_path("a.decode").unwrap_err();
    assert_eq!(e.render(), "Unknown image extension: Some(\"decode\")");
    assert_eq!(exitcode::classify(&e), exitcode::USAGE);
    let e = video::run(&video_args("out.encoder")).unwrap_err();
    assert_eq!(e.render(), "Output must be .mkv; got: Some(\"encoder\")");
    assert_eq!(exitcode::classify(&e), exitcode::USAGE);
    let e = meta::classify("a.codec").unwrap_err();
    assert_eq!(exitcode::classify(&e), exitcode::USAGE);
    let e = audio_args("o.not yet implemented", None).target_fmt().unwrap_err();
    assert_eq!(e.render(), "Cannot detect audio format from extension: Some(\"not yet implemented\"); use --format");
    assert_eq!(exitcode::classify(&e), exitcode::USAGE);
    let e = frame_args("o.no video track", None).target_fmt().unwrap_err();
    assert_eq!(exitcode::classify(&e), exitcode::USAGE);
    let e = meta::split_key_value("decoder", Class::Audio).unwrap_err();
    assert_eq!(e.render(), "--set must be KEY=VALUE, got: decoder");
    assert_eq!(exitcode::classify(&e), exitcode::USAGE);
    let e = plan_tag_edits(TagKind::VorbisComments, Class::Audio, &vec![], &vec!["NO ENCODER KEY=1".into()], false).unwrap_err();
    assert_eq!(e.render(), "Not a recognized metadata key for VorbisComments: 'NO ENCODER KEY'");
    assert_eq!(exitcode::classify(&e), exitcode::USAGE);
}

#[test]
fn exif_dump_lines() {
    let lines = exif_lines(Ok(Some(vec![("Make".into(), "Canon".into()), ("Model".into(), "".into())])), "a.jpg").unwrap().unwrap();
    assert_eq!(lines, vec!["Make\tCanon", "Model\t"]);
    assert_eq!(exif_lines(Ok(Some(vec![])), "a.jpg").unwrap().unwrap(), vec!["(no EXIF data)"]);
    assert!(exif_lines(Ok(None), "a.jpg").unwrap().is_none());
    let e = exif_lines(Err("unsupported".into()), "a.jpg").unwrap_err();
    assert_eq!(err_chain(&e), vec!["opening a.jpg", "unsupported"]);
    assert_eq!(exitcode::classify(&e), exitcode::NO_INPUT);
    match exif_dump(&[1, 2, 3], "x.bin") {
        Err(e) => assert_eq!(err_chain(&e)[0], "opening x.bin"),
        Ok(lines) => {
            assert_eq!(lines.len(), 1);
            assert!(lines[0].starts_with("(no metadata or unsupported format: "));
        }
    }
}

#[test]
fn audio_dump_lines() {
    let tags = vec![(
        "VorbisComments".to_string(),
        vec![("TrackTitle".to_string(), "Text(\"Song\")".to_string()), ("TrackArtist".to_string(), "Text(\"Band\")".to_string())],
    )];
    let lines = audio_lines(AudioInfo { duration: "3.25".to_string(), bitrate: Some(320), sample_rate: Some(44100), channels: Some(2), tags });
    assert_eq!(
        lines,
        vec![
            "=== Audio Properties ===",
            "Duration:    3.25s",
            "Bitrate:     320 kbps",
            "Sample rate: 44100 Hz",
            "Channels:    2",
            "\n=== VorbisComments ===",
            "TrackTitle\tText(\"Song\")",
            "TrackArtist\tText(\"Band\")",
        ]
    );
    let lines = audio_lines(AudioInfo { duration: "0.00".to_string(), bitrate: None, sample_rate: Some(8000), channels: None, tags: vec![] });
    assert_eq!(lines, vec!["=== Audio Properties ===", "Duration:    0.00s", "Sample rate: 8000 Hz", "(no tags)"]);
}

/// A mono 16-bit PCM WAV file of `n` silent samples at `rate` Hz.
fn wav_bytes(rate: u32, n: u32) -> Vec<u8> {
    let data_len = n * 2;
    let mut b = Vec::new();
    b.extend_from_slice(b"RIFF");
    b.extend_from_slice(&(36 + data_len).to_le_bytes());
    b.extend_from_slice(b"WAVEfmt ");
    b.extend_from_slice(&16u32.to_le_bytes());
    b.extend_from_slice(&1u16.to_le_bytes());
    b.extend_from_slice(&1u16.to_le_bytes());
    b.extend_from_slice(&rate.to_le_bytes());
    b.extend_from_slice(&(rate * 2).to_le_bytes());
    b.extend_from_slice(&2u16.to_le_bytes());
    b.extend_from_slice(&16u16.to_le_bytes());
    b.extend_from_slice(b"data");
    b.extend_from_slice(&data_len.to_le_bytes());
    b.extend(std::iter::repeat(0u8).take(data_len as usize));
    b
}

#[test]
fn audio_dump_reads_wav_bytes() {
    let lines = audio_dump(&wav_bytes(8000, 8000), "tone.wav").unwrap();
    assert_eq!(lines[0], "=== Audio Properties ===");
    assert_eq!(lines[1], "Duration:    1.00s");
    assert!(lines.contains(&"Sample rate: 8000 Hz".to_string()));
    assert!(lines.contains(&"Channels:    1".to_string()));
    assert_eq!(lines[lines.len() - 1], "(no tags)");
    let e = audio_dump(&[0u8; 64], "noise.bin").unwrap_err();
    assert_eq!(err_chain(&e)[0], "read file");
    assert_eq!(err_chain(&e).len(), 2);
}

#[test]
fn frame_choice() {
    assert!(frame_wanted(None, None, 0, 0));
    assert!(frame_wanted(None, Some(3), 3, 0));
    assert!(!frame_wanted(Some(0), Some(3), 2, 10_000));
    assert!(!frame_wanted(Some(12_500), None, 7, 12_499));
    assert!(frame_wanted(Some(12_500), None, 7, 12_500));
}

#[test]
fn frame_picked_among_decoded() {
    let mut index = 5u64;
    assert_eq!(pick_frame(3, None, Some(6), &mut index, 0), Some(1));
    assert_eq!(index, 6);
    let mut index = 5u64;
    assert_eq!(pick_frame(3, None, Some(9), &mut index, 0), None);
    assert_eq!(index, 8);
    let mut index = 0u64;
    assert_eq!(pick_frame(2, Some(1000), None, &mut index, 999), None);
    assert_eq!(index, 2);
    assert_eq!(pick_frame(2, Some(1000), None, &mut index, 1000), Some(0));
    assert_eq!(index, 2);
    let mut index = 0u64;
    assert_eq!(pick_frame(4, None, None, &mut index, -7), Some(0));
    assert_eq!(pick_frame(0, None, None, &mut index, 0), None);
}

#[test]
fn yuv_frames_become_rgba() {
    let mut f = YuvFrame::new(3, 2, 0);
    f.y = vec![16, 235, 81, 16, 235, 81];
    f.u = vec![90];
    f.v = vec![240];
    let img = onas::frame::yuv_to_rgba(&f);
    assert_eq!((img.w, img.h), (3, 2));
    assert_eq!(&img.data[0..4], &[179, 0, 0, 255]);
    assert_eq!(&img.data[8..12], &[255, 0, 0, 255]);
    assert_eq!(&img.data[20..24], &[255, 0, 0, 255]);
    let black = YuvFrame::new(2, 2, 0);
    let img = onas::frame::yuv_to_rgba(&black);
    assert_eq!(img.data, vec![0, 0, 0, 255, 0, 0, 0, 255, 0, 0, 0, 255, 0, 0, 0, 255]);
    let mut white = YuvFrame::new(2, 1, 0);
    white.y = vec![235, 235];
    assert_eq!(onas::frame::yuv_to_rgba(&white).data, vec![255, 255, 255, 255, 255, 255, 255, 255]);
}

/// The absolute time of every block, as a reader of the element list finds it.
fn block_times_of(els: &[MkvElement]) -> Vec<i64> {
    let mut base: i64 = 0;
    let mut out = Vec::new();
    for e in els {
        match e {
            MkvElement::Timestamp(t) => base = *t as i64,
            MkvElement::SimpleBlock(b) => {
                let k = if b[0] >= 0x80 { 1 } else { 2 };
                let rel = i16::from_be_bytes([b[k], b[k + 1]]) as i64;
                out.push(base + rel);
            }
            _ => {}
        }
    }
    out
}

#[test]
fn long_copied_streams_keep_their_block_times() {
    let times: Vec<i64> = vec![0, 40, 32_767, 32_768, 40_000, 100_000, 100_040, 250_000];
    let v: Vec<VideoPacket> = times.iter().map(|&t| VideoPacket { pts: t, data: vec![1], keyframe: t == 0 }).collect();
    let a = vec![AudioPacket { pts: 0, data: vec![3] }, AudioPacket { pts: 99_990, data: vec![4] }];
    let els = write_mkv(&v, &a, Some(&[7u8][..]), 1, Some(2), 640, 480, "V_VP9", "A_OPUS");
    let mut want = times.clone();
    want.extend([0, 99_990, 0]);
    assert_eq!(block_times_of(&els), want);
    let clusters = els.iter().filter(|e| matches!(e, MkvElement::ClusterStart)).count();
    let ends = els.iter().filter(|e| matches!(e, MkvElement::ClusterEnd)).count();
    assert_eq!(clusters, ends);
    assert!(clusters > 1);
}
