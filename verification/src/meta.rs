//! Metadata read / write: which kind of file a path names, whether a
//! request only reads, and the `KEY=VALUE` syntax of `--set`.
//!
//! The tag libraries work on the files themselves; the binary performs
//! the reads and writes that `run` decides on.
use vstd::prelude::*;
use crate::cli::{is_word, lower_ext, opt_debug, opt_debug_text, path_ext, path_extension, MetaArgs};
use crate::error::Error;
use crate::text::{ascii_lower, ascii_lowercase, chars_of, decimal, decimal_chars, find_char, first_index, lemma_ascii_lower_idempotent, slice_range, string_of};
use lofty::file::{AudioFile, FileType, TaggedFileExt};
use lofty::probe::Probe;
use std::io::Cursor;

verus! {

/// The two kinds of files whose metadata `onas` handles.
#[derive(Debug, Clone, Copy, PartialEq, Eq, Structural)]
pub enum Class {
    Image,
    Audio,
}

/// What a metadata request does.
#[derive(Debug, Clone, Copy, PartialEq, Eq, Structural)]
pub enum MetaOp {
    /// Print the metadata of a file of the given class.
    Dump(Class),
    /// Edit the tags of a file of the given class (set, remove or strip).
    Write(Class),
}

/// The class that an extension names, if any (ASCII case ignored).
pub open spec fn class_of(e: Option<Seq<char>>) -> Option<Class> {
    match lower_ext(e) {
        Some(l) => if l == "jpg"@ || l == "jpeg"@ || l == "png"@ || l == "webp"@ || l == "avif"@
            || l == "jxl"@ {
            Some(Class::Image)
        } else if l == "flac"@ || l == "opus"@ || l == "m4a"@ || l == "aac"@ || l == "mp3"@ || l
            == "ogg"@ || l == "wav"@ {
            Some(Class::Audio)
        } else {
            None
        },
        None => None,
    }
}

/// The error of an extension that names no class: the phrase, then the
/// lower-cased extension.
pub open spec fn class_error(e: Option<Seq<char>>) -> Seq<Seq<char>> {
    seq!["Cannot determine metadata class from extension"@, opt_debug_text(lower_ext(e))]
}

/// The class that an extension names; the error names the lower-cased extension.
pub fn class_from_ext(ext: Option<&str>) -> (r: Result<Class, Error>)
    ensures
        ({
            let e = match ext {
                None => None,
                Some(s) => Some(s@),
            };
            match class_of(e) {
                Some(c) => r == Ok::<Class, Error>(c),
                None => r matches Err(err) && err@ == class_error(e),
            }
        }),
{
    let lowered: Option<String> = match ext {
        None => None,
        Some(s) => {
            let c = chars_of(s);
            let l = ascii_lowercase(c.as_slice());
            let l = l.as_slice();
            if is_word(l, "jpg") || is_word(l, "jpeg") || is_word(l, "png") || is_word(l, "webp")
                || is_word(l, "avif") || is_word(l, "jxl") {
                return Ok(Class::Image);
            }
            if is_word(l, "flac") || is_word(l, "opus") || is_word(l, "m4a") || is_word(l, "aac")
                || is_word(l, "mp3") || is_word(l, "ogg") || is_word(l, "wav") {
                return Ok(Class::Audio);
            }
            Some(string_of(l))
        },
    };
    let d = match &lowered {
        None => opt_debug(None),
        Some(l) => opt_debug(Some(l.as_str())),
    };
    Err(Error::detailed("Cannot determine metadata class from extension", d))
}

/// The class of a file, by its extension.
pub fn classify(p: &str) -> (r: Result<Class, Error>)
    ensures
        match class_of(path_ext(p@)) {
            Some(c) => r == Ok::<Class, Error>(c),
            None => r matches Err(err) && err@ == class_error(path_ext(p@)),
        },
{
    let e = path_extension(p);
    match &e {
        None => class_from_ext(None),
        Some(s) => class_from_ext(Some(s.as_str())),
    }
}

/// The request only reads: `--dump`, or none of `--strip`, `--set`, `--remove`.
pub open spec fn read_only(dump: bool, strip: bool, n_set: nat, n_remove: nat) -> bool {
    dump || (!strip && n_set == 0 && n_remove == 0)
}

/// Decides what a metadata request does. The file class comes first (an
/// unknown extension is refused), then `--strip` together with `--set` or
/// `--remove` is refused; a request that only reads dumps, any other writes.
pub fn run(args: &MetaArgs) -> (r: Result<MetaOp, Error>)
    ensures
        match class_of(path_ext(args.file@)) {
            None => r matches Err(err) && err@ == class_error(path_ext(args.file@)),
            Some(c) => if args.strip && (args.set.len() > 0 || args.remove.len() > 0) {
                r matches Err(err) && err@ == seq![
                    "--strip cannot be combined with --set or --remove"@,
                ]
            } else if read_only(args.dump, args.strip, args.set@.len(), args.remove@.len()) {
                r == Ok::<MetaOp, Error>(MetaOp::Dump(c))
            } else {
                r == Ok::<MetaOp, Error>(MetaOp::Write(c))
            },
        },
{
    let class = match classify(args.file.as_str()) {
        Ok(c) => c,
        Err(e) => return Err(e),
    };
    if args.strip && (args.set.len() > 0 || args.remove.len() > 0) {
        return Err(Error::msg(String::from_str("--strip cannot be combined with --set or --remove")));
    }
    let is_read_only = args.dump || (!args.strip && args.set.len() == 0 && args.remove.len() == 0);
    if is_read_only {
        Ok(MetaOp::Dump(class))
    } else {
        Ok(MetaOp::Write(class))
    }
}

/// What splitting a `--set` value gives: the text before the first `=` and
/// the text after it, or, without an `=`, the error of two messages,
/// `prefix + "KEY=VALUE, got"` and then `kv`.
pub open spec fn key_value_result(kv: Seq<char>, prefix: Seq<char>) -> Result<(Seq<char>, Seq<char>), Seq<Seq<char>>> {
    match first_index(kv, '=') {
        Some(i) => Ok((kv.take(i), kv.skip(i + 1))),
        None => Err(seq![prefix + "KEY=VALUE, got"@, kv]),
    }
}

/// The wording of the `--set` error for each class.
pub open spec fn set_prefix(c: Class) -> Seq<char> {
    match c {
        Class::Image => "--set value must be "@,
        Class::Audio => "--set must be "@,
    }
}

/// Splits a `--set` value at its first `=` into key and value.
pub fn split_key_value(kv: &str, class: Class) -> (r: Result<(String, String), Error>)
    ensures
        match key_value_result(kv@, set_prefix(class)) {
            Ok((k, v)) => r matches Ok((rk, rv)) && rk@ == k && rv@ == v,
            Err(m) => r matches Err(err) && err@ == m,
        },
{
    let c = chars_of(kv);
    let c = c.as_slice();
    match find_char(c, '=') {
        Some(i) => {
            let k = slice_range(c, 0, i);
            let v = slice_range(c, i + 1, c.len());
            assert(k@ =~= kv@.take(i as int));
            assert(v@ =~= kv@.skip(i + 1));
            Ok((string_of(k.as_slice()), string_of(v.as_slice())))
        },
        None => {
            let mut m = match class {
                Class::Image => String::from_str("--set value must be "),
                Class::Audio => String::from_str("--set must be "),
            };
            m.append("KEY=VALUE, got");
            Err(Error::detailed(m.as_str(), String::from_str(kv)))
        },
    }
}

// ─── tag edits ───────────────────────────────────────────────────────────────

/// The tag formats of lofty (`lofty::tag::TagType`).
#[derive(Debug, Clone, Copy, PartialEq, Eq, Structural)]
pub enum TagKind {
    Ape,
    Id3v1,
    Id3v2,
    Mp4Ilst,
    VorbisComments,
    RiffInfo,
    AiffText,
}

/// The `Debug` name of a tag format.
pub open spec fn tag_kind_text(t: TagKind) -> Seq<char> {
    match t {
        TagKind::Ape => "Ape"@,
        TagKind::Id3v1 => "Id3v1"@,
        TagKind::Id3v2 => "Id3v2"@,
        TagKind::Mp4Ilst => "Mp4Ilst"@,
        TagKind::VorbisComments => "VorbisComments"@,
        TagKind::RiffInfo => "RiffInfo"@,
        TagKind::AiffText => "AiffText"@,
    }
}

/// The `Debug` name of a tag format, as messages print it.
pub fn tag_kind_name(t: TagKind) -> (r: &'static str)
    ensures
        r@ == tag_kind_text(t),
{
    match t {
        TagKind::Ape => "Ape",
        TagKind::Id3v1 => "Id3v1",
        TagKind::Id3v2 => "Id3v2",
        TagKind::Mp4Ilst => "Mp4Ilst",
        TagKind::VorbisComments => "VorbisComments",
        TagKind::RiffInfo => "RiffInfo",
        TagKind::AiffText => "AiffText",
    }
}

/// Whether lofty knows `key` as a metadata key of tag format `t`
/// (`ItemKey::from_key(t, key)` is `Some`).
pub uninterp spec fn key_known(t: TagKind, key: Seq<char>) -> bool;

/// `lofty::tag::ItemKey::from_key(t, key).is_some()`; the answer is named
/// `key_known`.
#[verifier::external_body]
fn lofty_key_known(t: TagKind, key: &str) -> (r: bool)
    ensures
        r == key_known(t, key@),
{
    let tt = match t {
        TagKind::Ape => lofty::tag::TagType::Ape,
        TagKind::Id3v1 => lofty::tag::TagType::Id3v1,
        TagKind::Id3v2 => lofty::tag::TagType::Id3v2,
        TagKind::Mp4Ilst => lofty::tag::TagType::Mp4Ilst,
        TagKind::VorbisComments => lofty::tag::TagType::VorbisComments,
        TagKind::RiffInfo => lofty::tag::TagType::RiffInfo,
        TagKind::AiffText => lofty::tag::TagType::AiffText,
    };
    lofty::tag::ItemKey::from_key(tt, key).is_some()
}

/// One step of a tag edit.
#[derive(Debug)]
pub enum TagEdit {
    /// Remove the key.
    Remove(String),
    /// A key to remove that the tag format does not know: left alone.
    Skip(String),
    /// Set the key to the value.
    Assign(String, String),
}

/// A tag edit step, strings as sequences.
pub enum EditItem {
    Remove(Seq<char>),
    Skip(Seq<char>),
    Assign(Seq<char>, Seq<char>),
}

impl View for TagEdit {
    type V = EditItem;

    open spec fn view(&self) -> EditItem {
        match self {
            TagEdit::Remove(k) => EditItem::Remove(k@),
            TagEdit::Skip(k) => EditItem::Skip(k@),
            TagEdit::Assign(k, v) => EditItem::Assign(k@, v@),
        }
    }
}

/// What a tag edit does: clear every tag, or the steps in order.
#[derive(Debug)]
pub struct TagPlan {
    pub strip: bool,
    pub edits: Vec<TagEdit>,
}

/// The steps of a list of edits.
pub open spec fn edits_view(v: Seq<TagEdit>) -> Seq<EditItem> {
    Seq::new(v.len(), |i: int| v[i]@)
}

/// The removal steps: every key in order, removed when the format knows
/// it, skipped when it does not.
pub open spec fn removal_items(t: TagKind, rs: Seq<String>) -> Seq<EditItem> {
    Seq::new(
        rs.len(),
        |i: int|
            if key_known(t, rs[i]@) {
                EditItem::Remove(rs[i]@)
            } else {
                EditItem::Skip(rs[i]@)
            },
    )
}

/// The error for a key that the tag format does not know: the phrase
/// naming the format, then the key in quotes.
pub open spec fn unknown_key_error(t: TagKind, k: Seq<char>) -> Seq<Seq<char>> {
    seq!["Not a recognized metadata key for "@ + tag_kind_text(t), "'"@ + k + "'"@]
}

/// The set steps: every `KEY=VALUE` in order, or the error of the first
/// one without `=` or with a key that the format does not know.
pub open spec fn set_items(t: TagKind, class: Class, ss: Seq<String>) -> Result<Seq<EditItem>, Seq<Seq<char>>>
    decreases ss.len(),
{
    if ss.len() == 0 {
        Ok(Seq::empty())
    } else {
        match set_items(t, class, ss.drop_last()) {
            Err(m) => Err(m),
            Ok(p) => match key_value_result(ss.last()@, set_prefix(class)) {
                Err(m) => Err(m),
                Ok((k, v)) => if key_known(t, k) {
                    Ok(p.push(EditItem::Assign(k, v)))
                } else {
                    Err(unknown_key_error(t, k))
                },
            },
        }
    }
}

proof fn lemma_set_err_stays(t: TagKind, class: Class, ss: Seq<String>, i: int)
    requires
        0 <= i <= ss.len(),
        set_items(t, class, ss.take(i)) is Err,
    ensures
        set_items(t, class, ss) == set_items(t, class, ss.take(i)),
    decreases ss.len() - i,
{
    if i == ss.len() {
        assert(ss.take(i) =~= ss);
    } else {
        assert(ss.drop_last().take(i) =~= ss.take(i));
        lemma_set_err_stays(t, class, ss.drop_last(), i);
    }
}

/// Plans the edit of a file's primary tag of format `t`: with `strip`,
/// every tag is cleared; otherwise the `--remove` keys are removed (or
/// skipped when the format does not know them) in order, then the `--set`
/// values are set in order, and the first value without `=` or with an
/// unknown key refuses the whole edit.
pub fn plan_tag_edits(t: TagKind, class: Class, removes: &Vec<String>, sets: &Vec<String>, strip: bool) -> (r: Result<TagPlan, Error>)
    ensures
        strip ==> (r matches Ok(p) && p.strip && p.edits@.len() == 0),
        !strip ==> match set_items(t, class, sets@) {
            Err(m) => r matches Err(e) && e@ == m,
            Ok(s) => r matches Ok(p) && !p.strip && edits_view(p.edits@) == removal_items(t, removes@)
                + s,
        },
{
    if strip {
        return Ok(TagPlan { strip: true, edits: Vec::new() });
    }
    let mut edits: Vec<TagEdit> = Vec::new();
    let mut i: usize = 0;
    while i < removes.len()
        invariant
            i <= removes.len(),
            !strip,
            edits_view(edits@) == removal_items(t, removes@.take(i as int)),
        decreases removes.len() - i,
    {
        let k = String::from_str(removes[i].as_str());
        let ghost before = edits_view(edits@);
        let ghost kk = k@;
        assert(kk == removes@[i as int]@);
        let known = lofty_key_known(t, removes[i].as_str());
        if known {
            edits.push(TagEdit::Remove(k));
        } else {
            edits.push(TagEdit::Skip(k));
        }
        let ghost item = if known {
            EditItem::Remove(kk)
        } else {
            EditItem::Skip(kk)
        };
        assert(edits_view(edits@) =~= before.push(item));
        assert(removal_items(t, removes@.take(i + 1)) =~= removal_items(t, removes@.take(i as int)).push(item));
        i = i + 1;
    }
    assert(removes@.take(removes.len() as int) =~= removes@);
    let ghost start = edits_view(edits@);
    let mut j: usize = 0;
    assert(sets@.take(0) =~= Seq::<String>::empty());
    while j < sets.len()
        invariant
            j <= sets.len(),
            !strip,
            start == removal_items(t, removes@),
            set_items(t, class, sets@.take(j as int)) matches Ok(p) && edits_view(edits@) == start + p,
        decreases sets.len() - j,
    {
        let ghost tk = sets@.take(j + 1);
        proof {
            assert(tk.drop_last() =~= sets@.take(j as int));
            assert(tk.last() == sets@[j as int]);
        }
        let (k, v) = match split_key_value(sets[j].as_str(), class) {
            Ok(kv) => kv,
            Err(e) => {
                proof {
                    lemma_set_err_stays(t, class, sets@, j + 1);
                }
                return Err(e);
            },
        };
        if !lofty_key_known(t, k.as_str()) {
            let mut phrase = String::from_str("Not a recognized metadata key for ");
            phrase.append(tag_kind_name(t));
            let mut quoted = String::from_str("'");
            quoted.append(k.as_str());
            quoted.append("'");
            proof {
                lemma_set_err_stays(t, class, sets@, j + 1);
            }
            return Err(Error::detailed(phrase.as_str(), quoted));
        }
        let ghost before = edits_view(edits@);
        let ghost kv = (k@, v@);
        edits.push(TagEdit::Assign(k, v));
        assert(edits_view(edits@) =~= before.push(EditItem::Assign(kv.0, kv.1)));
        j = j + 1;
    }
    assert(sets@.take(sets.len() as int) =~= sets@);
    Ok(TagPlan { strip: false, edits })
}

// ─── EXIF dump ───────────────────────────────────────────────────────────────

/// What nom-exif makes of a file's bytes: the message of a source it
/// cannot take (`Err`), no EXIF (`Ok(None)`), or every EXIF entry as the
/// `Debug` text of its tag and the text of its value (empty for an entry
/// whose value did not parse).
pub uninterp spec fn exif_of(bytes: Seq<u8>) -> Result<Option<Seq<(Seq<char>, Seq<char>)>>, Seq<char>>;

/// Entries as plain values.
pub open spec fn entries_view(v: Seq<(String, String)>) -> Seq<(Seq<char>, Seq<char>)> {
    Seq::new(v.len(), |i: int| (v[i].0@, v[i].1@))
}

/// A raw EXIF read as plain values.
pub open spec fn exif_read_view(r: Result<Option<Vec<(String, String)>>, String>) -> Result<Option<Seq<(Seq<char>, Seq<char>)>>, Seq<char>> {
    match r {
        Err(m) => Err(m@),
        Ok(None) => Ok(None),
        Ok(Some(v)) => Ok(Some(entries_view(v@))),
    }
}

/// `MediaSource::from_memory` on the bytes, then `MediaParser::parse_exif`
/// and every entry's tag (`Debug`) and value (`Display`); the result is
/// named `exif_of`.
#[verifier::external_body]
fn nom_exif_entries(bytes: &[u8]) -> (r: Result<Option<Vec<(String, String)>>, String>)
    ensures
        exif_read_view(r) == exif_of(bytes@),
{
    let ms = match nom_exif::MediaSource::from_memory(bytes.to_vec()) {
        Ok(ms) => ms,
        Err(e) => return Err(e.to_string()),
    };
    let mut parser = nom_exif::MediaParser::new();
    match parser.parse_exif(ms) {
        Ok(iter) => Ok(Some(
            iter.map(|e| (format!("{:?}", e.tag()), e.value().map(|v| v.to_string()).unwrap_or_default()))
                .collect(),
        )),
        Err(_) => Ok(None),
    }
}

/// The lines that a dump prints for EXIF entries: `"<tag>\t<value>"` for
/// each, or `"(no EXIF data)"` when there is none.
pub open spec fn exif_text(es: Seq<(Seq<char>, Seq<char>)>) -> Seq<Seq<char>> {
    if es.len() == 0 {
        seq!["(no EXIF data)"@]
    } else {
        Seq::new(es.len(), |i: int| es[i].0 + seq!['\t'] + es[i].1)
    }
}

/// The dump of an image's EXIF for the file at `path`, from nom-exif's
/// raw read: a source it cannot take fails under `"opening <path>"`; no
/// EXIF gives `None` (the caller then tries the file as a media track);
/// otherwise the printed lines.
pub fn exif_lines(raw: Result<Option<Vec<(String, String)>>, String>, path: &str) -> (r: Result<Option<Vec<String>>, Error>)
    ensures
        match exif_read_view(raw) {
            Err(m) => r matches Err(e) && e@ == seq!["opening "@ + path@, m],
            Ok(None) => r matches Ok(None),
            Ok(Some(es)) => r matches Ok(Some(lines)) && lines.len() == exif_text(es).len()
                && forall|i: int| 0 <= i < lines.len() ==> (#[trigger] lines@[i])@ == exif_text(es)[i],
        },
{
    match raw {
        Err(m) => {
            let mut ctx = String::from_str("opening ");
            ctx.append(path);
            let e = Error::msg(m).context(ctx);
            assert(e@ =~= seq!["opening "@ + path@, m@]);
            Err(e)
        },
        Ok(None) => Ok(None),
        Ok(Some(es)) => {
            let ghost ev = entries_view(es@);
            let mut lines: Vec<String> = Vec::new();
            if es.len() == 0 {
                lines.push(String::from_str("(no EXIF data)"));
                return Ok(Some(lines));
            }
            let mut i: usize = 0;
            while i < es.len()
                invariant
                    i <= es.len(),
                    es.len() > 0,
                    ev == entries_view(es@),
                    lines.len() == i,
                    forall|j: int| 0 <= j < i ==> (#[trigger] lines@[j])@ == exif_text(ev)[j],
                decreases es.len() - i,
            {
                let mut l = String::from_str(es[i].0.as_str());
                l.append("\t");
                l.append(es[i].1.as_str());
                proof {
                    reveal_strlit("\t");
                }
                lines.push(l);
                i = i + 1;
            }
            Ok(Some(lines))
        },
    }
}

/// What nom-exif makes of the bytes as a media track: the `Debug` text of
/// its `DurationMs`, `Width` and `Height` entries (each an `Option`), or
/// the text of its error.
pub uninterp spec fn track_of(bytes: Seq<u8>) -> Result<(Seq<char>, Seq<char>, Seq<char>), Seq<char>>;

/// A raw track read as plain values.
pub open spec fn track_read_view(r: Result<(String, String, String), String>) -> Result<(Seq<char>, Seq<char>, Seq<char>), Seq<char>> {
    match r {
        Ok((d, w, h)) => Ok((d@, w@, h@)),
        Err(m) => Err(m@),
    }
}

/// `MediaSource::from_memory` on the bytes, then `MediaParser::parse_track`
/// and the `Debug` text of `get(DurationMs)`, `get(Width)` and
/// `get(Height)`; the result is named `track_of`.
#[verifier::external_body]
fn nom_exif_track(bytes: &[u8]) -> (r: Result<(String, String, String), String>)
    ensures
        track_read_view(r) == track_of(bytes@),
{
    let ms = match nom_exif::MediaSource::from_memory(bytes.to_vec()) {
        Ok(ms) => ms,
        Err(e) => return Err(e.to_string()),
    };
    let mut parser = nom_exif::MediaParser::new();
    match parser.parse_track(ms) {
        Ok(t) => Ok((
            format!("{:?}", t.get(nom_exif::TrackInfoTag::DurationMs)),
            format!("{:?}", t.get(nom_exif::TrackInfoTag::Width)),
            format!("{:?}", t.get(nom_exif::TrackInfoTag::Height)),
        )),
        Err(e) => Err(e.to_string()),
    }
}

/// The lines that a dump prints for a file without EXIF, from its reading
/// as a media track: duration, width and height, or why there is nothing.
pub open spec fn track_text(t: Result<(Seq<char>, Seq<char>, Seq<char>), Seq<char>>) -> Seq<Seq<char>> {
    match t {
        Ok((d, w, h)) => seq!["Duration: "@ + d, "Width:    "@ + w, "Height:   "@ + h],
        Err(m) => seq!["(no metadata or unsupported format: "@ + m + ")"@],
    }
}

fn joined(a: &str, b: &str, c: &str) -> (r: String)
    ensures
        r@ == a@ + b@ + c@,
{
    let mut s = String::from_str(a);
    s.append(b);
    s.append(c);
    s
}

/// The lines printed for bytes without EXIF, read as a media track.
pub fn track_lines(bytes: &[u8]) -> (r: Vec<String>)
    ensures
        r@.len() == track_text(track_of(bytes@)).len(),
        forall|i: int| 0 <= i < r.len() ==> (#[trigger] r@[i])@ == track_text(track_of(bytes@))[i],
{
    let mut out: Vec<String> = Vec::new();
    match nom_exif_track(bytes) {
        Ok((d, w, h)) => {
            out.push(joined("Duration: ", d.as_str(), ""));
            out.push(joined("Width:    ", w.as_str(), ""));
            out.push(joined("Height:   ", h.as_str(), ""));
            proof {
                reveal_strlit("");
                assert("Duration: "@ + d@ + ""@ =~= "Duration: "@ + d@);
                assert("Width:    "@ + w@ + ""@ =~= "Width:    "@ + w@);
                assert("Height:   "@ + h@ + ""@ =~= "Height:   "@ + h@);
            }
        },
        Err(m) => {
            out.push(joined("(no metadata or unsupported format: ", m.as_str(), ")"));
        },
    }
    out
}

/// Dumps the metadata of image bytes read from `path`: the EXIF lines as
/// `exif_lines` says, or, without EXIF, the track lines.
pub fn exif_dump(bytes: &[u8], path: &str) -> (r: Result<Vec<String>, Error>)
    ensures
        match exif_of(bytes@) {
            Err(m) => r matches Err(e) && e@ == seq!["opening "@ + path@, m],
            Ok(None) => r matches Ok(lines) && lines.len() == track_text(track_of(bytes@)).len()
                && forall|i: int|
                0 <= i < lines.len() ==> (#[trigger] lines@[i])@ == track_text(track_of(bytes@))[i],
            Ok(Some(es)) => r matches Ok(lines) && lines.len() == exif_text(es).len()
                && forall|i: int| 0 <= i < lines.len() ==> (#[trigger] lines@[i])@ == exif_text(es)[i],
        },
{
    match exif_lines(nom_exif_entries(bytes), path) {
        Err(e) => Err(e),
        Ok(Some(lines)) => Ok(lines),
        Ok(None) => Ok(track_lines(bytes)),
    }
}

// ─── audio dump ──────────────────────────────────────────────────────────────

/// The step at which lofty gave up on an audio file.
#[derive(Debug, Clone, Copy, PartialEq, Eq, Structural)]
pub enum AudioStep {
    GuessType,
    Read,
}

/// What lofty reads of an audio file from its bytes and its path (whose
/// extension gives the file type where the content does not): the duration
/// in seconds written with two decimals, the bitrate in kbps, the sample
/// rate, the channel count, and each tag as the `Debug` text of its type
/// with the `Debug` texts of its items' keys and values; or the step that
/// failed and the text of its error.
pub uninterp spec fn lofty_audio(bytes: Seq<u8>, path: Seq<char>) -> Result<
    (Seq<char>, Option<u32>, Option<u32>, Option<u8>, Seq<(Seq<char>, Seq<(Seq<char>, Seq<char>)>)>),
    (AudioStep, Seq<char>),
>;

/// The items of a tag as plain values.
pub open spec fn items_view(v: Seq<(String, String)>) -> Seq<(Seq<char>, Seq<char>)> {
    Seq::new(v.len(), |i: int| (v[i].0@, v[i].1@))
}

/// The tags of a file as plain values.
pub open spec fn tags_view(v: Seq<(String, Vec<(String, String)>)>) -> Seq<(Seq<char>, Seq<(Seq<char>, Seq<char>)>)> {
    Seq::new(v.len(), |i: int| (v[i].0@, items_view(v[i].1@)))
}

/// What a dump shows of an audio file: its duration in seconds written
/// with two decimals, the bitrate in kbps, the sample rate and the channel
/// count where they are known, and each tag as the text of its type with
/// the texts of its items' keys and values.
pub struct AudioInfo {
    pub duration: String,
    pub bitrate: Option<u32>,
    pub sample_rate: Option<u32>,
    pub channels: Option<u8>,
    pub tags: Vec<(String, Vec<(String, String)>)>,
}

/// An audio file's properties and tags as plain values.
pub open spec fn audio_view(d: AudioInfo) -> (
    Seq<char>,
    Option<u32>,
    Option<u32>,
    Option<u8>,
    Seq<(Seq<char>, Seq<(Seq<char>, Seq<char>)>)>,
) {
    (d.duration@, d.bitrate, d.sample_rate, d.channels, tags_view(d.tags@))
}

/// A file as lofty reads it.
#[verifier::external_type_specification]
#[verifier::external_body]
pub struct ExTaggedFile(lofty::file::TaggedFile);

/// A file that lofty has read, with the bytes and path it was read from.
struct LoftyFile {
    file: lofty::file::TaggedFile,
    src: Ghost<(Seq<u8>, Seq<char>)>,
}

/// `Probe::new` over the bytes, the file type of the path's extension set
/// when it has one, then `guess_file_type` and `read`; a failed step with
/// the text of its error, as `lofty_audio` names it.
#[verifier::external_body]
fn lofty_probe(bytes: &[u8], path: &str) -> (r: Result<LoftyFile, (AudioStep, String)>)
    ensures
        match r {
            Ok(f) => f.src@ == (bytes@, path@) && lofty_audio(bytes@, path@) is Ok,
            Err((s, m)) => lofty_audio(bytes@, path@) matches Err((t, n)) && t == s && n == m@,
        },
{
    let probe = Probe::new(Cursor::new(bytes));
    let probe = match FileType::from_path(path) { Some(t) => probe.set_file_type(t), None => probe };
    let probe = match probe.guess_file_type() { Ok(p) => p, Err(e) => return Err((AudioStep::GuessType, e.to_string())) };
    match probe.read() {
        Ok(f) => Ok(LoftyFile { file: f, src: Ghost((bytes@, path@)) }),
        Err(e) => Err((AudioStep::Read, e.to_string())),
    }
}

/// Of a file lofty has read, the `{:.2}` text of its duration in seconds,
/// `audio_bitrate`, `sample_rate`, `channels`, and for each of its tags the
/// `Debug` texts of `tag_type` and of each item's `key` and `value`, as
/// `lofty_audio` names them.
#[verifier::external_body]
fn lofty_contents(f: &LoftyFile) -> (r: AudioInfo)
    requires
        lofty_audio(f.src@.0, f.src@.1) is Ok,
    ensures
        audio_view(r) == lofty_audio(f.src@.0, f.src@.1)->Ok_0,
{
    let p = f.file.properties();
    let mut tags = Vec::new();
    for t in f.file.tags() {
        let items = t.items().map(|i| (format!("{:?}", i.key()), format!("{:?}", i.value())));
        tags.push((format!("{:?}", t.tag_type()), items.collect()));
    }
    let duration = format!("{:.2}", p.duration().as_secs_f64());
    AudioInfo { duration, bitrate: p.audio_bitrate(), sample_rate: p.sample_rate(), channels: p.channels(), tags }
}

/// The strings of a list as plain values.
pub open spec fn strings_view(v: Seq<String>) -> Seq<Seq<char>> {
    Seq::new(v.len(), |i: int| v[i]@)
}

/// A line for a number that lofty may not know: `head`, the number, `tail`.
pub open spec fn number_line(head: Seq<char>, n: Option<u32>, tail: Seq<char>) -> Seq<Seq<char>> {
    match n {
        Some(k) => seq![head + decimal(k as nat) + tail],
        None => Seq::empty(),
    }
}

/// The lines of a tag's items: `"<key>\t<value>"` each.
pub open spec fn item_lines(items: Seq<(Seq<char>, Seq<char>)>) -> Seq<Seq<char>> {
    Seq::new(items.len(), |i: int| items[i].0 + "\t"@ + items[i].1)
}

/// The lines of the tags: for each, a blank line and `"=== <type> ==="`
/// (one string), then its items.
pub open spec fn tag_lines(tags: Seq<(Seq<char>, Seq<(Seq<char>, Seq<char>)>)>) -> Seq<Seq<char>>
    decreases tags.len(),
{
    if tags.len() == 0 {
        Seq::empty()
    } else {
        tag_lines(tags.drop_last()) + seq!["\n=== "@ + tags.last().0 + " ==="@] + item_lines(tags.last().1)
    }
}

/// The lines that a dump prints for an audio file: its properties, the
/// duration always and each other one that is known, `"(no tags)"` when it
/// has none, then its tags.
pub open spec fn audio_text(
    d: (Seq<char>, Option<u32>, Option<u32>, Option<u8>, Seq<(Seq<char>, Seq<(Seq<char>, Seq<char>)>)>),
) -> Seq<Seq<char>> {
    seq!["=== Audio Properties ==="@, "Duration:    "@ + d.0 + "s"@]
        + number_line("Bitrate:     "@, d.1, " kbps"@)
        + number_line("Sample rate: "@, d.2, " Hz"@)
        + number_line("Channels:    "@, match d.3 { Some(c) => Some(c as u32), None => None }, ""@)
        + (if d.4.len() == 0 { seq!["(no tags)"@] } else { Seq::empty() })
        + tag_lines(d.4)
}

fn push_number(out: &mut Vec<String>, head: &str, n: Option<u32>, tail: &str)
    ensures
        strings_view(final(out)@) == strings_view(old(out)@) + number_line(head@, n, tail@),
{
    match n {
        Some(k) => {
            let d = decimal_chars(k);
            let ds = string_of(d.as_slice());
            out.push(joined(head, ds.as_str(), tail));
            assert(strings_view(out@) =~= strings_view(old(out)@) + number_line(head@, n, tail@));
        },
        None => {
            assert(strings_view(out@) =~= strings_view(old(out)@) + number_line(head@, n, tail@));
        },
    }
}

/// The lines printed for an audio file, from lofty's read of it.
pub fn audio_lines(d: AudioInfo) -> (r: Vec<String>)
    ensures
        strings_view(r@) == audio_text(audio_view(d)),
{
    let ghost dv = audio_view(d);
    let AudioInfo { duration: dur, bitrate: br, sample_rate: sr, channels: ch, tags } = d;
    let mut out: Vec<String> = Vec::new();
    out.push(String::from_str("=== Audio Properties ==="));
    out.push(joined("Duration:    ", dur.as_str(), "s"));
    assert(strings_view(out@) =~= seq!["=== Audio Properties ==="@, "Duration:    "@ + dv.0 + "s"@]);
    push_number(&mut out, "Bitrate:     ", br, " kbps");
    push_number(&mut out, "Sample rate: ", sr, " Hz");
    let cn: Option<u32> = match ch {
        Some(c) => Some(c as u32),
        None => None,
    };
    push_number(&mut out, "Channels:    ", cn, "");
    let ghost extra: Seq<Seq<char>> = if tags.len() == 0 { seq!["(no tags)"@] } else { Seq::empty() };
    let ghost before = strings_view(out@);
    if tags.len() == 0 {
        out.push(String::from_str("(no tags)"));
    }
    assert(strings_view(out@) =~= before + extra);
    let ghost head = strings_view(out@);
    let ghost tv = tags_view(tags@);
    assert(tv.take(0) =~= Seq::<(Seq<char>, Seq<(Seq<char>, Seq<char>)>)>::empty());
    assert(head + tag_lines(tv.take(0)) =~= head);
    let mut i: usize = 0;
    while i < tags.len()
        invariant
            i <= tags.len(),
            tv == tags_view(tags@),
            strings_view(out@) == head + tag_lines(tv.take(i as int)),
        decreases tags.len() - i,
    {
        let ghost start = strings_view(out@);
        out.push(joined("\n=== ", tags[i].0.as_str(), " ==="));
        let items = &tags[i].1;
        let ghost iv = items_view(items@);
        assert(iv == tv[i as int].1);
        let ghost hdr = "\n=== "@ + tv[i as int].0 + " ==="@;
        assert(strings_view(out@) =~= start + seq![hdr] + item_lines(iv.take(0)));
        let mut j: usize = 0;
        while j < items.len()
            invariant
                j <= items.len(),
                iv == items_view(items@),
                strings_view(out@) == start + seq![hdr] + item_lines(iv.take(j as int)),
            decreases items.len() - j,
        {
            let ghost mid = strings_view(out@);
            out.push(joined(items[j].0.as_str(), "\t", items[j].1.as_str()));
            assert(item_lines(iv.take(j + 1)) =~= item_lines(iv.take(j as int)).push(iv[j as int].0 + "\t"@ + iv[j as int].1));
            assert(strings_view(out@) =~= mid.push(iv[j as int].0 + "\t"@ + iv[j as int].1));
            j = j + 1;
        }
        assert(iv.take(items.len() as int) =~= iv);
        assert(tv.take(i + 1).drop_last() =~= tv.take(i as int));
        assert(tv.take(i + 1).last() == tv[i as int]);
        assert(tag_lines(tv.take(i + 1)) == tag_lines(tv.take(i as int)) + seq![hdr] + item_lines(iv));
        assert(strings_view(out@) =~= head + tag_lines(tv.take(i + 1)));
        i = i + 1;
    }
    assert(tv.take(tags.len() as int) =~= tv);
    assert(strings_view(out@) =~= audio_text(dv));
    out
}

/// Dumps the properties and tags of audio bytes read from `path`: the lines
/// of `audio_lines`, or the failed step as `"guess file type"` or
/// `"read file"` over lofty's error.
pub fn audio_dump(bytes: &[u8], path: &str) -> (r: Result<Vec<String>, Error>)
    ensures
        match lofty_audio(bytes@, path@) {
            Ok(d) => r matches Ok(lines) && strings_view(lines@) == audio_text(d),
            Err((AudioStep::GuessType, m)) => r matches Err(e) && e@ == seq!["guess file type"@, m],
            Err((AudioStep::Read, m)) => r matches Err(e) && e@ == seq!["read file"@, m],
        },
{
    match lofty_probe(bytes, path) {
        Ok(f) => Ok(audio_lines(lofty_contents(&f))),
        Err((step, m)) => {
            let ctx = match step {
                AudioStep::GuessType => String::from_str("guess file type"),
                AudioStep::Read => String::from_str("read file"),
            };
            let e = Error::msg(m).context(ctx);
            Err(e)
        },
    }
}

/// `--dump` always reads, whatever else is given.
pub proof fn law_dump_reads(strip: bool, n_set: nat, n_remove: nat)
    ensures
        read_only(true, strip, n_set, n_remove),
{
}

/// The class of an extension does not depend on its ASCII case.
pub proof fn law_class_ignores_case(e: Seq<char>)
    ensures
        class_of(Some(e)) == class_of(Some(ascii_lower(e))),
{
    lemma_ascii_lower_idempotent(e);
}

/// Every image format that `onas image` converts is an image for `onas
/// meta`, whatever the case of its extension.
pub proof fn law_image_formats_are_images(e: Seq<char>)
    requires
        crate::image::fmt_of(Some(e)) is Some,
    ensures
        class_of(Some(e)) == Some(Class::Image),
{
}

/// The audio files whose tags `onas meta` reads and writes are those with
/// a FLAC, Opus, M4A, AAC, MP3, Ogg or WAV extension, whatever its case.
pub proof fn law_audio_extensions(e: Seq<char>)
    ensures
        class_of(Some(e)) == Some(Class::Audio) <==> (ascii_lower(e) == "flac"@ || ascii_lower(e)
            == "opus"@ || ascii_lower(e) == "m4a"@ || ascii_lower(e) == "aac"@ || ascii_lower(e)
            == "mp3"@ || ascii_lower(e) == "ogg"@ || ascii_lower(e) == "wav"@),
{
    lemma_literals_apart();
}

/// The images whose metadata `onas meta` handles are those with a JPEG,
/// PNG, WebP, AVIF or JPEG XL extension, whatever its case.
pub proof fn law_image_extensions(e: Seq<char>)
    ensures
        class_of(Some(e)) == Some(Class::Image) <==> (ascii_lower(e) == "jpg"@ || ascii_lower(e)
            == "jpeg"@ || ascii_lower(e) == "png"@ || ascii_lower(e) == "webp"@ || ascii_lower(e)
            == "avif"@ || ascii_lower(e) == "jxl"@),
{
    lemma_literals_apart();
}

proof fn lemma_literals_apart()
    ensures
        "flac"@ != "jpg"@ && "flac"@ != "jpeg"@ && "flac"@ != "png"@ && "flac"@ != "webp"@
            && "flac"@ != "avif"@ && "flac"@ != "jxl"@,
        "opus"@ != "jpg"@ && "opus"@ != "jpeg"@ && "opus"@ != "png"@ && "opus"@ != "webp"@
            && "opus"@ != "avif"@ && "opus"@ != "jxl"@,
        "m4a"@ != "jpg"@ && "m4a"@ != "jpeg"@ && "m4a"@ != "png"@ && "m4a"@ != "webp"@
            && "m4a"@ != "avif"@ && "m4a"@ != "jxl"@,
        "aac"@ != "jpg"@ && "aac"@ != "jpeg"@ && "aac"@ != "png"@ && "aac"@ != "webp"@
            && "aac"@ != "avif"@ && "aac"@ != "jxl"@,
        "mp3"@ != "jpg"@ && "mp3"@ != "jpeg"@ && "mp3"@ != "png"@ && "mp3"@ != "webp"@
            && "mp3"@ != "avif"@ && "mp3"@ != "jxl"@,
        "ogg"@ != "jpg"@ && "ogg"@ != "jpeg"@ && "ogg"@ != "png"@ && "ogg"@ != "webp"@
            && "ogg"@ != "avif"@ && "ogg"@ != "jxl"@,
        "wav"@ != "jpg"@ && "wav"@ != "jpeg"@ && "wav"@ != "png"@ && "wav"@ != "webp"@
            && "wav"@ != "avif"@ && "wav"@ != "jxl"@,
{
    reveal_strlit("flac");
    reveal_strlit("opus");
    reveal_strlit("m4a");
    reveal_strlit("aac");
    reveal_strlit("mp3");
    reveal_strlit("ogg");
    reveal_strlit("wav");
    reveal_strlit("jpg");
    reveal_strlit("jpeg");
    reveal_strlit("png");
    reveal_strlit("webp");
    reveal_strlit("avif");
    reveal_strlit("jxl");
    assert("flac"@[0] == 'f' && "flac"@.len() == 4);
    assert("opus"@[0] == 'o' && "opus"@.len() == 4);
    assert("m4a"@[0] == 'm' && "m4a"@.len() == 3);
    assert("aac"@[0] == 'a' && "aac"@.len() == 3);
    assert("mp3"@[0] == 'm' && "mp3"@.len() == 3);
    assert("ogg"@[0] == 'o' && "ogg"@.len() == 3);
    assert("wav"@[0] == 'w' && "wav"@.len() == 3);
    assert("jpg"@[0] == 'j' && "jpg"@.len() == 3);
    assert("jpeg"@[0] == 'j' && "jpeg"@.len() == 4);
    assert("png"@[0] == 'p' && "png"@.len() == 3);
    assert("webp"@[0] == 'w' && "webp"@.len() == 4);
    assert("avif"@[0] == 'a' && "avif"@.len() == 4);
    assert("jxl"@[0] == 'j' && "jxl"@.len() == 3);
}

} // verus!
