//! The MKV file that `onas video` writes: the sequence of Matroska elements
//! (EBML header, segment info, track entries, one cluster holding every
//! block) and the bytes of each `SimpleBlock`.
use vstd::prelude::*;

verus! {

// ─── SimpleBlock bytes ───────────────────────────────────────────────────────

/// A timestamp clamped into the `i16` range of a block's relative time.
pub open spec fn clamp_i16(p: i64) -> int {
    if p > 32767 {
        32767
    } else if p < -32768 {
        -32768
    } else {
        p as int
    }
}

/// The track number as an EBML variable-size integer: one byte `0x80 | n`
/// below 127 (127 would be the reserved all-ones byte), else two bytes
/// `0x40 | ((n >> 8) & 0x3f)`, `n & 0xff`.
pub open spec fn track_vint(t: u64) -> Seq<u8> {
    if t < 127 {
        seq![(128 + t) as u8]
    } else {
        seq![(64 + (t / 256) % 64) as u8, (t % 256) as u8]
    }
}

/// The big-endian two's-complement bytes of a value in the `i16` range.
pub open spec fn be16(v: int) -> Seq<u8> {
    let u = if v < 0 {
        v + 65536
    } else {
        v
    };
    seq![(u / 256) as u8, (u % 256) as u8]
}

/// The flags byte of a block: `0x80` for a keyframe.
pub open spec fn block_flags(keyframe: bool) -> u8 {
    if keyframe {
        0x80
    } else {
        0
    }
}

/// A `SimpleBlock` payload: track number, relative timestamp, flags, frame data.
pub open spec fn block_bytes(track: u64, pts: i64, keyframe: bool, data: Seq<u8>) -> Seq<u8> {
    track_vint(track) + be16(clamp_i16(pts)) + seq![block_flags(keyframe)] + data
}

/// The bytes of a `SimpleBlock` holding `data` for `track` at time `pts`.
pub fn simple_block(track: u64, pts: i64, keyframe: bool, data: &[u8]) -> (r: Vec<u8>)
    ensures
        r@ == block_bytes(track, pts, keyframe, data@),
{
    let mut raw: Vec<u8> = Vec::new();
    if track < 0x7f {
        let b: u8 = (0x80u64 | track) as u8;
        assert(b == 128 + track) by (bit_vector)
            requires
                track < 0x7f,
                b == (0x80u64 | track) as u8,
        ;
        raw.push(b);
    } else {
        let hi: u8 = (0x40u64 | ((track >> 8u64) & 0x3f)) as u8;
        let lo: u8 = (track & 0xff) as u8;
        assert(hi == 64 + (track / 256) % 64) by (bit_vector)
            requires
                hi == (0x40u64 | ((track >> 8u64) & 0x3f)) as u8,
        ;
        assert(lo == track % 256) by (bit_vector)
            requires
                lo == (track & 0xff) as u8,
        ;
        raw.push(hi);
        raw.push(lo);
    }
    let c: i64 = if pts > 32767 {
        32767
    } else if pts < -32768 {
        -32768
    } else {
        pts
    };
    let u: u32 = if c < 0 {
        (c + 65536) as u32
    } else {
        c as u32
    };
    raw.push((u / 256) as u8);
    raw.push((u % 256) as u8);
    let flags: u8 = if keyframe {
        0x80
    } else {
        0
    };
    raw.push(flags);
    let ghost head = raw@;
    let mut i: usize = 0;
    while i < data.len()
        invariant
            i <= data.len(),
            raw@ == head + data@.take(i as int),
        decreases data.len() - i,
    {
        raw.push(data[i]);
        i = i + 1;
        assert(raw@ =~= head + data@.take(i as int));
    }
    assert(data@.take(data.len() as int) =~= data@);
    assert(raw@ =~= block_bytes(track, pts, keyframe, data@));
    raw
}

/// The value of a one- or two-byte EBML variable-size integer, as EBML
/// reads it: the length marker must match the length, and the all-ones
/// value of each length is reserved (it stands for "unknown"), so it gives
/// no value.
pub open spec fn vint_value(b: Seq<u8>) -> Option<int> {
    if b.len() == 1 && 128 <= b[0] {
        let v = b[0] - 128;
        if v == 127 {
            None
        } else {
            Some(v)
        }
    } else if b.len() == 2 && 64 <= b[0] < 128 {
        let v = (b[0] - 64) * 256 + b[1];
        if v == 16383 {
            None
        } else {
            Some(v)
        }
    } else {
        None
    }
}

/// The value of two big-endian two's-complement bytes.
pub open spec fn be16_value(b: Seq<u8>) -> int {
    let u = b[0] * 256 + b[1];
    if u >= 32768 {
        u - 65536
    } else {
        u
    }
}

/// Track numbers below 16383 are written as valid, unreserved EBML
/// integers that read back as themselves.
pub proof fn law_track_vint_roundtrip(t: u64)
    requires
        t < 16383,
    ensures
        vint_value(track_vint(t)) == Some(t as int),
{
    if t >= 127 {
        assert((t / 256) % 64 == t / 256);
        assert((t / 256) * 256 + t % 256 == t);
    }
}

/// A block's relative time reads back as the timestamp clamped into the
/// `i16` range.
pub proof fn law_block_time_roundtrip(p: i64)
    ensures
        be16_value(be16(clamp_i16(p))) == clamp_i16(p),
{
    let v = clamp_i16(p);
    let u = if v < 0 { v + 65536 } else { v };
    assert((u / 256) * 256 + u % 256 == u);
}

// ─── elements ────────────────────────────────────────────────────────────────

/// One Matroska element as the writer emits it: a master element's start or
/// end, or a leaf with its value.
#[derive(Debug)]
pub enum MkvElement {
    EbmlStart,
    EbmlVersion(u64),
    EbmlReadVersion(u64),
    EbmlMaxIdLength(u64),
    EbmlMaxSizeLength(u64),
    DocType(String),
    DocTypeVersion(u64),
    DocTypeReadVersion(u64),
    EbmlEnd,
    SegmentStart,
    InfoStart,
    TimestampScale(u64),
    MuxingApp(String),
    WritingApp(String),
    InfoEnd,
    TracksStart,
    TrackEntryStart,
    TrackNumber(u64),
    TrackUid(u64),
    TrackType(u64),
    CodecId(String),
    VideoStart,
    PixelWidth(u64),
    PixelHeight(u64),
    VideoEnd,
    TrackEntryEnd,
    TracksEnd,
    ClusterStart,
    Timestamp(u64),
    SimpleBlock(Vec<u8>),
    ClusterEnd,
    SegmentEnd,
}

/// The value of an element, strings and bytes as sequences.
pub enum MkvItem {
    EbmlStart,
    EbmlVersion(u64),
    EbmlReadVersion(u64),
    EbmlMaxIdLength(u64),
    EbmlMaxSizeLength(u64),
    DocType(Seq<char>),
    DocTypeVersion(u64),
    DocTypeReadVersion(u64),
    EbmlEnd,
    SegmentStart,
    InfoStart,
    TimestampScale(u64),
    MuxingApp(Seq<char>),
    WritingApp(Seq<char>),
    InfoEnd,
    TracksStart,
    TrackEntryStart,
    TrackNumber(u64),
    TrackUid(u64),
    TrackType(u64),
    CodecId(Seq<char>),
    VideoStart,
    PixelWidth(u64),
    PixelHeight(u64),
    VideoEnd,
    TrackEntryEnd,
    TracksEnd,
    ClusterStart,
    Timestamp(u64),
    SimpleBlock(Seq<u8>),
    ClusterEnd,
    SegmentEnd,
}

impl View for MkvElement {
    type V = MkvItem;

    open spec fn view(&self) -> MkvItem {
        match self {
            MkvElement::EbmlStart => MkvItem::EbmlStart,
            MkvElement::EbmlVersion(v) => MkvItem::EbmlVersion(*v),
            MkvElement::EbmlReadVersion(v) => MkvItem::EbmlReadVersion(*v),
            MkvElement::EbmlMaxIdLength(v) => MkvItem::EbmlMaxIdLength(*v),
            MkvElement::EbmlMaxSizeLength(v) => MkvItem::EbmlMaxSizeLength(*v),
            MkvElement::DocType(s) => MkvItem::DocType(s@),
            MkvElement::DocTypeVersion(v) => MkvItem::DocTypeVersion(*v),
            MkvElement::DocTypeReadVersion(v) => MkvItem::DocTypeReadVersion(*v),
            MkvElement::EbmlEnd => MkvItem::EbmlEnd,
            MkvElement::SegmentStart => MkvItem::SegmentStart,
            MkvElement::InfoStart => MkvItem::InfoStart,
            MkvElement::TimestampScale(v) => MkvItem::TimestampScale(*v),
            MkvElement::MuxingApp(s) => MkvItem::MuxingApp(s@),
            MkvElement::WritingApp(s) => MkvItem::WritingApp(s@),
            MkvElement::InfoEnd => MkvItem::InfoEnd,
            MkvElement::TracksStart => MkvItem::TracksStart,
            MkvElement::TrackEntryStart => MkvItem::TrackEntryStart,
            MkvElement::TrackNumber(v) => MkvItem::TrackNumber(*v),
            MkvElement::TrackUid(v) => MkvItem::TrackUid(*v),
            MkvElement::TrackType(v) => MkvItem::TrackType(*v),
            MkvElement::CodecId(s) => MkvItem::CodecId(s@),
            MkvElement::VideoStart => MkvItem::VideoStart,
            MkvElement::PixelWidth(v) => MkvItem::PixelWidth(*v),
            MkvElement::PixelHeight(v) => MkvItem::PixelHeight(*v),
            MkvElement::VideoEnd => MkvItem::VideoEnd,
            MkvElement::TrackEntryEnd => MkvItem::TrackEntryEnd,
            MkvElement::TracksEnd => MkvItem::TracksEnd,
            MkvElement::ClusterStart => MkvItem::ClusterStart,
            MkvElement::Timestamp(v) => MkvItem::Timestamp(*v),
            MkvElement::SimpleBlock(b) => MkvItem::SimpleBlock(b@),
            MkvElement::ClusterEnd => MkvItem::ClusterEnd,
            MkvElement::SegmentEnd => MkvItem::SegmentEnd,
        }
    }
}

/// The context of a failed write of this element, where that failure ends
/// the whole write; a failure to write any other element is ignored.
pub open spec fn write_context_of(e: MkvItem) -> Option<Seq<char>> {
    match e {
        MkvItem::EbmlStart => Some("write EBML"@),
        MkvItem::SegmentStart => Some("write Segment"@),
        MkvItem::ClusterStart => Some("write Cluster"@),
        MkvItem::SimpleBlock(_) => Some("write SimpleBlock"@),
        MkvItem::SegmentEnd => Some("write Segment end"@),
        _ => None,
    }
}

impl MkvElement {
    /// The context under which a failed write of this element is reported;
    /// `None` when such a failure is ignored.
    pub fn write_context(&self) -> (r: Option<&'static str>)
        ensures
            match r {
                Some(s) => write_context_of(self@) == Some(s@),
                None => write_context_of(self@) is None,
            },
    {
        match self {
            MkvElement::EbmlStart => Some("write EBML"),
            MkvElement::SegmentStart => Some("write Segment"),
            MkvElement::ClusterStart => Some("write Cluster"),
            MkvElement::SimpleBlock(_) => Some("write SimpleBlock"),
            MkvElement::SegmentEnd => Some("write Segment end"),
            _ => None,
        }
    }
}

/// The values of a sequence of elements.
pub open spec fn items(v: Seq<MkvElement>) -> Seq<MkvItem> {
    Seq::new(v.len(), |i: int| v[i]@)
}

/// An encoded video packet: timestamp in milliseconds, data, keyframe flag.
#[derive(Debug)]
pub struct VideoPacket {
    pub pts: i64,
    pub data: Vec<u8>,
    pub keyframe: bool,
}

/// A packet of the audio track: timestamp in milliseconds and data.
#[derive(Debug)]
pub struct AudioPacket {
    pub pts: i64,
    pub data: Vec<u8>,
}

/// The track number that the embedded subtitle track gets.
pub const SUB_TRACK: u64 = 3;

/// The EBML header, the segment start and its info, and the start of the
/// track list.
pub open spec fn header_items() -> Seq<MkvItem> {
    seq![
        MkvItem::EbmlStart,
        MkvItem::EbmlVersion(1),
        MkvItem::EbmlReadVersion(1),
        MkvItem::EbmlMaxIdLength(4),
        MkvItem::EbmlMaxSizeLength(8),
        MkvItem::DocType("matroska"@),
        MkvItem::DocTypeVersion(4),
        MkvItem::DocTypeReadVersion(2),
        MkvItem::EbmlEnd,
        MkvItem::SegmentStart,
        MkvItem::InfoStart,
        MkvItem::TimestampScale(1000000),
        MkvItem::MuxingApp("onas"@),
        MkvItem::WritingApp("onas"@),
        MkvItem::InfoEnd,
        MkvItem::TracksStart,
    ]
}

/// The entry of the video track (track type 1).
pub open spec fn video_track_items(t: u64, codec: Seq<char>, w: u32, h: u32) -> Seq<MkvItem> {
    seq![
        MkvItem::TrackEntryStart,
        MkvItem::TrackNumber(t),
        MkvItem::TrackUid(t),
        MkvItem::TrackType(1),
        MkvItem::CodecId(codec),
        MkvItem::VideoStart,
        MkvItem::PixelWidth(w as u64),
        MkvItem::PixelHeight(h as u64),
        MkvItem::VideoEnd,
        MkvItem::TrackEntryEnd,
    ]
}

/// The entry of a non-video track: its number, type and codec.
pub open spec fn plain_track_items(t: u64, kind: u64, codec: Seq<char>) -> Seq<MkvItem> {
    seq![
        MkvItem::TrackEntryStart,
        MkvItem::TrackNumber(t),
        MkvItem::TrackUid(t),
        MkvItem::TrackType(kind),
        MkvItem::CodecId(codec),
        MkvItem::TrackEntryEnd,
    ]
}

/// The audio track entry (type 2): present when there is an audio track
/// and it has packets.
pub open spec fn audio_track_items(a: Option<u64>, n_packets: nat, codec: Seq<char>) -> Seq<MkvItem> {
    match a {
        Some(t) => if n_packets > 0 {
            plain_track_items(t, 2, codec)
        } else {
            Seq::empty()
        },
        None => Seq::empty(),
    }
}

/// The subtitle track entry (type 17, ASS), present with a subtitle.
pub open spec fn sub_track_items(has_sub: bool) -> Seq<MkvItem> {
    if has_sub {
        plain_track_items(SUB_TRACK, 17, "S_TEXT/ASS"@)
    } else {
        Seq::empty()
    }
}

/// A block to write: track number, absolute time in milliseconds, keyframe
/// flag and frame data.
pub type BlockSpec = (u64, i64, bool, Seq<u8>);

/// Every block of the file in the order written: the video packets, the
/// audio packets (with an audio track), then the subtitle at time 0.
pub open spec fn all_blocks(
    v: Seq<VideoPacket>,
    a: Seq<AudioPacket>,
    sub: Option<Seq<u8>>,
    v_track: u64,
    a_track: Option<u64>,
) -> Seq<BlockSpec> {
    video_specs(v_track, v) + audio_specs(a_track, a) + match sub {
        Some(s) => seq![(SUB_TRACK, 0i64, false, s)],
        None => Seq::empty(),
    }
}

/// The video packets as blocks of track `t`.
pub open spec fn video_specs(t: u64, v: Seq<VideoPacket>) -> Seq<BlockSpec> {
    Seq::new(v.len(), |i: int| (t, v[i].pts, v[i].keyframe, v[i].data@))
}

/// The audio packets as blocks, with an audio track.
pub open spec fn audio_specs(a: Option<u64>, v: Seq<AudioPacket>) -> Seq<BlockSpec> {
    match a {
        Some(t) => Seq::new(v.len(), |i: int| (t, v[i].pts, false, v[i].data@)),
        None => Seq::empty(),
    }
}

/// A block at `p` can sit in a cluster whose timestamp is `base`: its
/// relative time fits in an `i16`.
pub open spec fn fits(base: u64, p: i64) -> bool {
    -32768 <= p - base <= 32767
}

/// The timestamp of the cluster that a block at `p` opens: `p` itself, or
/// 0 for a time before 0.
pub open spec fn new_base(p: i64) -> u64 {
    if p >= 0 {
        p as u64
    } else {
        0
    }
}

/// The timestamp of the cluster open after the blocks `bs` (the first
/// cluster is at 0).
pub open spec fn base_after(bs: Seq<BlockSpec>) -> u64
    decreases bs.len(),
{
    if bs.len() == 0 {
        0
    } else {
        let b = base_after(bs.drop_last());
        if fits(b, bs.last().1) {
            b
        } else {
            new_base(bs.last().1)
        }
    }
}

/// The elements of one block, written while the cluster at `base` is
/// open: the block alone if its time fits, else the end of that cluster
/// and a new one at `new_base` first.
pub open spec fn step_items(base: u64, b: BlockSpec) -> Seq<MkvItem> {
    if fits(base, b.1) {
        seq![MkvItem::SimpleBlock(block_bytes(b.0, (b.1 - base) as i64, b.2, b.3))]
    } else {
        let nb = new_base(b.1);
        seq![
            MkvItem::ClusterEnd,
            MkvItem::ClusterStart,
            MkvItem::Timestamp(nb),
            MkvItem::SimpleBlock(block_bytes(b.0, (b.1 - nb) as i64, b.2, b.3)),
        ]
    }
}

/// The elements of the blocks `bs`, written after a cluster at 0 opened.
pub open spec fn cluster_items(bs: Seq<BlockSpec>) -> Seq<MkvItem>
    decreases bs.len(),
{
    if bs.len() == 0 {
        Seq::empty()
    } else {
        cluster_items(bs.drop_last()) + step_items(base_after(bs.drop_last()), bs.last())
    }
}

/// The whole file, element by element.
pub open spec fn layout(
    v: Seq<VideoPacket>,
    a: Seq<AudioPacket>,
    sub: Option<Seq<u8>>,
    v_track: u64,
    a_track: Option<u64>,
    w: u32,
    h: u32,
    v_codec: Seq<char>,
    a_codec: Seq<char>,
) -> Seq<MkvItem> {
    header_items() + video_track_items(v_track, v_codec, w, h) + audio_track_items(
        a_track,
        a.len(),
        a_codec,
    ) + sub_track_items(sub is Some) + seq![
        MkvItem::TracksEnd,
        MkvItem::ClusterStart,
        MkvItem::Timestamp(0),
    ] + cluster_items(all_blocks(v, a, sub, v_track, a_track)) + seq![
        MkvItem::ClusterEnd,
        MkvItem::SegmentEnd,
    ]
}

// ─── reading the times back ──────────────────────────────────────────────────

/// The relative time of a `SimpleBlock` payload: the two bytes after its
/// one- or two-byte track number.
pub open spec fn block_rel(b: Seq<u8>) -> int {
    let k: int = if b[0] >= 128 {
        1
    } else {
        2
    };
    be16_value(b.subrange(k, k + 2))
}

/// The timestamp of the cluster open at the end of `items` (the last
/// `Timestamp` element), 0 before any.
pub open spec fn read_base(items: Seq<MkvItem>) -> int
    decreases items.len(),
{
    if items.len() == 0 {
        0
    } else {
        match items.last() {
            MkvItem::Timestamp(t) => t as int,
            _ => read_base(items.drop_last()),
        }
    }
}

/// The absolute time of every block in `items`, in order, as a reader
/// finds it: the timestamp of its cluster plus its relative time.
pub open spec fn read_times(items: Seq<MkvItem>) -> Seq<int>
    decreases items.len(),
{
    if items.len() == 0 {
        Seq::empty()
    } else {
        match items.last() {
            MkvItem::SimpleBlock(b) => read_times(items.drop_last()).push(
                read_base(items.drop_last()) + block_rel(b),
            ),
            _ => read_times(items.drop_last()),
        }
    }
}

/// The times of the blocks.
pub open spec fn block_times(bs: Seq<BlockSpec>) -> Seq<int> {
    Seq::new(bs.len(), |i: int| bs[i].1 as int)
}

/// No block starts before the earliest time a block can stand at.
pub open spec fn times_representable(bs: Seq<BlockSpec>) -> bool {
    forall|i: int| 0 <= i < bs.len() ==> #[trigger] bs[i].1 >= -32768
}

proof fn lemma_block_rel(t: u64, rel: i64, k: bool, d: Seq<u8>)
    ensures
        block_rel(block_bytes(t, rel, k, d)) == clamp_i16(rel),
{
    let b = block_bytes(t, rel, k, d);
    let v = track_vint(t);
    let n: int = if t < 127 {
        1
    } else {
        2
    };
    assert(v.len() == n);
    assert(b[0] == v[0]);
    if t >= 127 {
        assert((64 + (t / 256) % 64) < 128);
    }
    assert(b.subrange(n, n + 2) =~= be16(clamp_i16(rel)));
    law_block_time_roundtrip(rel);
}

proof fn lemma_no_blocks(x: Seq<MkvItem>)
    requires
        forall|i: int| 0 <= i < x.len() ==> !(#[trigger] x[i] is SimpleBlock),
    ensures
        read_times(x) == Seq::<int>::empty(),
    decreases x.len(),
{
    if x.len() > 0 {
        assert(!(x[x.len() - 1] is SimpleBlock));
        lemma_no_blocks(x.drop_last());
    }
}

proof fn lemma_cluster_times(pre: Seq<MkvItem>, bs: Seq<BlockSpec>)
    requires
        read_times(pre) == Seq::<int>::empty(),
        read_base(pre) == 0,
        times_representable(bs),
    ensures
        read_times(pre + cluster_items(bs)) == block_times(bs),
        read_base(pre + cluster_items(bs)) == base_after(bs),
        base_after(bs) <= i64::MAX,
    decreases bs.len(),
{
    if bs.len() == 0 {
        assert(pre + cluster_items(bs) =~= pre);
        assert(block_times(bs) =~= Seq::<int>::empty());
    } else {
        let init = bs.drop_last();
        let b = bs.last();
        assert(times_representable(init)) by {
            assert forall|i: int| 0 <= i < init.len() implies #[trigger] init[i].1 >= -32768 by {
                assert(init[i] == bs[i]);
            }
        }
        assert(bs[bs.len() - 1].1 >= -32768);
        lemma_cluster_times(pre, init);
        let x = pre + cluster_items(init);
        let base = base_after(init);
        let st = step_items(base, b);
        assert(pre + cluster_items(bs) =~= x + st);
        assert(block_times(bs) =~= block_times(init).push(b.1 as int));
        if fits(base, b.1) {
            let rel = (b.1 - base) as i64;
            assert(rel == b.1 - base);
            lemma_block_rel(b.0, rel, b.2, b.3);
            let y = x + st;
            assert(y.drop_last() =~= x);
            assert(y.last() == MkvItem::SimpleBlock(block_bytes(b.0, rel, b.2, b.3)));
            assert(read_times(y) == read_times(x).push(read_base(x) + block_rel(block_bytes(b.0, rel, b.2, b.3))));
            assert(read_base(y) == read_base(x));
            assert(read_times(y) =~= block_times(bs));
        } else {
            let nb = new_base(b.1);
            let rel = (b.1 - nb) as i64;
            assert(rel == b.1 - nb);
            lemma_block_rel(b.0, rel, b.2, b.3);
            let y = x + st;
            let y1 = x + seq![MkvItem::ClusterEnd, MkvItem::ClusterStart, MkvItem::Timestamp(nb)];
            let y2 = x + seq![MkvItem::ClusterEnd, MkvItem::ClusterStart];
            let y3 = x + seq![MkvItem::ClusterEnd];
            assert(y.drop_last() =~= y1);
            assert(y1.drop_last() =~= y2);
            assert(y2.drop_last() =~= y3);
            assert(y3.drop_last() =~= x);
            assert(y.last() == MkvItem::SimpleBlock(block_bytes(b.0, rel, b.2, b.3)));
            assert(y1.last() == MkvItem::Timestamp(nb));
            assert(y2.last() == MkvItem::ClusterStart);
            assert(y3.last() == MkvItem::ClusterEnd);
            assert(read_times(y3) == read_times(x));
            assert(read_times(y2) == read_times(x));
            assert(read_times(y1) == read_times(x));
            assert(read_base(y1) == nb as int);
            assert(read_times(y) == read_times(x).push(nb + block_rel(block_bytes(b.0, rel, b.2, b.3))));
            assert(read_base(y) == nb as int);
            assert(read_times(y) =~= block_times(bs));
        }
    }
}

/// A file laid out for blocks whose times a cluster can hold gives each
/// block back its own time: the timestamp of its cluster plus its relative
/// time is the time of its packet, for every block in order.
pub proof fn law_block_times_kept(
    v: Seq<VideoPacket>,
    a: Seq<AudioPacket>,
    sub: Option<Seq<u8>>,
    v_track: u64,
    a_track: Option<u64>,
    w: u32,
    h: u32,
    v_codec: Seq<char>,
    a_codec: Seq<char>,
)
    requires
        times_representable(all_blocks(v, a, sub, v_track, a_track)),
    ensures
        read_times(layout(v, a, sub, v_track, a_track, w, h, v_codec, a_codec)) == block_times(
            all_blocks(v, a, sub, v_track, a_track),
        ),
{
    let bs = all_blocks(v, a, sub, v_track, a_track);
    let pre = header_items() + video_track_items(v_track, v_codec, w, h) + audio_track_items(
        a_track,
        a.len(),
        a_codec,
    ) + sub_track_items(sub is Some) + seq![MkvItem::TracksEnd, MkvItem::ClusterStart, MkvItem::Timestamp(0)];
    lemma_no_blocks(pre);
    assert(pre.last() == MkvItem::Timestamp(0));
    lemma_cluster_times(pre, bs);
    let y = pre + cluster_items(bs);
    let z = y + seq![MkvItem::ClusterEnd, MkvItem::SegmentEnd];
    assert(layout(v, a, sub, v_track, a_track, w, h, v_codec, a_codec) =~= z);
    let z1 = y + seq![MkvItem::ClusterEnd];
    assert(z.drop_last() =~= z1);
    assert(z1.drop_last() =~= y);
    assert(z.last() == MkvItem::SegmentEnd);
    assert(z1.last() == MkvItem::ClusterEnd);
    assert(read_times(z1) == read_times(y));
    assert(read_times(z) == read_times(z1));
}

/// The first track of the file is the video track, and it declares the
/// output size: right after the start of the track list comes an entry
/// numbered `v_track`, of type video (1), with the video codec, whose video
/// element holds the width `w` and then the height `h`.
pub proof fn law_video_track_declares_size(
    v: Seq<VideoPacket>,
    a: Seq<AudioPacket>,
    sub: Option<Seq<u8>>,
    v_track: u64,
    a_track: Option<u64>,
    w: u32,
    h: u32,
    v_codec: Seq<char>,
    a_codec: Seq<char>,
)
    ensures
        ({
            let l = layout(v, a, sub, v_track, a_track, w, h, v_codec, a_codec);
            &&& l.len() > 25
            &&& l[15] == MkvItem::TracksStart
            &&& l[16] == MkvItem::TrackEntryStart
            &&& l[17] == MkvItem::TrackNumber(v_track)
            &&& l[19] == MkvItem::TrackType(1)
            &&& l[20] == MkvItem::CodecId(v_codec)
            &&& l[21] == MkvItem::VideoStart
            &&& l[22] == MkvItem::PixelWidth(w as u64)
            &&& l[23] == MkvItem::PixelHeight(h as u64)
            &&& l[24] == MkvItem::VideoEnd
            &&& l[25] == MkvItem::TrackEntryEnd
        }),
{
    let hd = header_items();
    let vt = video_track_items(v_track, v_codec, w, h);
    let rest = audio_track_items(a_track, a.len(), a_codec) + sub_track_items(sub is Some) + seq![
        MkvItem::TracksEnd,
        MkvItem::ClusterStart,
        MkvItem::Timestamp(0),
    ] + cluster_items(all_blocks(v, a, sub, v_track, a_track)) + seq![
        MkvItem::ClusterEnd,
        MkvItem::SegmentEnd,
    ];
    let l = layout(v, a, sub, v_track, a_track, w, h, v_codec, a_codec);
    assert(l =~= hd + vt + rest);
    assert(hd.len() == 16);
    assert(vt.len() == 10);
    assert(hd[15] == MkvItem::TracksStart);
    assert(forall|i: int| 16 <= i < 26 ==> (hd + vt + rest)[i] == vt[i - 16]);
}

/// The frame of the file around the blocks: a Matroska document whose
/// timestamps count milliseconds; after the video track, an audio track
/// (type 2, with the audio codec) when there is an audio track with
/// packets, then the subtitle track (number 3, type 17, ASS text) when there
/// is a subtitle; then the end of the track list and a first cluster at 0;
/// the segment closes the file.
pub proof fn law_file_frame(
    v: Seq<VideoPacket>,
    a: Seq<AudioPacket>,
    sub: Option<Seq<u8>>,
    v_track: u64,
    a_track: Option<u64>,
    w: u32,
    h: u32,
    v_codec: Seq<char>,
    a_codec: Seq<char>,
)
    ensures
        ({
            let l = layout(v, a, sub, v_track, a_track, w, h, v_codec, a_codec);
            let na: int = if a_track is Some && a.len() > 0 {
                6
            } else {
                0
            };
            let ns: int = if sub is Some {
                6
            } else {
                0
            };
            &&& l.len() >= 31 + na + ns
            &&& l[0] == MkvItem::EbmlStart
            &&& l[5] == MkvItem::DocType("matroska"@)
            &&& l[11] == MkvItem::TimestampScale(1000000)
            &&& (a_track is Some && a.len() > 0 ==> {
                &&& l[26] == MkvItem::TrackEntryStart
                &&& l[27] == MkvItem::TrackNumber(a_track->0)
                &&& l[29] == MkvItem::TrackType(2)
                &&& l[30] == MkvItem::CodecId(a_codec)
                &&& l[31] == MkvItem::TrackEntryEnd
            })
            &&& (sub is Some ==> {
                &&& l[26 + na] == MkvItem::TrackEntryStart
                &&& l[27 + na] == MkvItem::TrackNumber(3)
                &&& l[29 + na] == MkvItem::TrackType(17)
                &&& l[30 + na] == MkvItem::CodecId("S_TEXT/ASS"@)
                &&& l[31 + na] == MkvItem::TrackEntryEnd
            })
            &&& l[26 + na + ns] == MkvItem::TracksEnd
            &&& l[27 + na + ns] == MkvItem::ClusterStart
            &&& l[28 + na + ns] == MkvItem::Timestamp(0)
            &&& l.last() == MkvItem::SegmentEnd
        }),
{
    let hd = header_items();
    let vt = video_track_items(v_track, v_codec, w, h);
    let at = audio_track_items(a_track, a.len(), a_codec);
    let st = sub_track_items(sub is Some);
    let mid = seq![MkvItem::TracksEnd, MkvItem::ClusterStart, MkvItem::Timestamp(0)];
    let cl = cluster_items(all_blocks(v, a, sub, v_track, a_track));
    let tail = seq![MkvItem::ClusterEnd, MkvItem::SegmentEnd];
    let l = layout(v, a, sub, v_track, a_track, w, h, v_codec, a_codec);
    let pre = hd + vt + at + st + mid;
    assert(l =~= pre + cl + tail);
    assert(hd.len() == 16 && vt.len() == 10);
    let na: int = if a_track is Some && a.len() > 0 {
        6
    } else {
        0
    };
    let ns: int = if sub is Some {
        6
    } else {
        0
    };
    assert(at.len() == na);
    assert(st.len() == ns);
    assert(forall|i: int| 0 <= i < pre.len() ==> (pre + cl + tail)[i] == pre[i]);
    assert(forall|i: int| 26 <= i < 26 + na ==> pre[i] == at[i - 26]);
    assert(forall|i: int| 26 + na <= i < 26 + na + ns ==> pre[i] == st[i - 26 - na]);
    assert(forall|i: int| 26 + na + ns <= i < 29 + na + ns ==> pre[i] == mid[i - 26 - na - ns]);
    assert(hd[0] == MkvItem::EbmlStart);
    assert(hd[5] == MkvItem::DocType("matroska"@));
    assert(hd[11] == MkvItem::TimestampScale(1000000));
    assert(l.last() == tail[1]);
}

/// The bytes of a block: the track number as a variable-size integer that
/// reads back as the track, two bytes of time, a flags byte that is `0x80`
/// for a keyframe and 0 otherwise, then the frame data unchanged.
pub proof fn law_block_layout(t: u64, p: i64, k: bool, d: Seq<u8>)
    requires
        t < 16383,
    ensures
        ({
            let b = block_bytes(t, p, k, d);
            let n: int = if t < 127 {
                1
            } else {
                2
            };
            &&& b.len() == n + 3 + d.len()
            &&& vint_value(b.take(n)) == Some(t as int)
            &&& b[n + 2] == (if k {
                0x80u8
            } else {
                0u8
            })
            &&& b.skip(n + 3) == d
        }),
{
    let b = block_bytes(t, p, k, d);
    let tv = track_vint(t);
    law_track_vint_roundtrip(t);
    assert(b.take(tv.len() as int) =~= tv);
    assert(b.skip(tv.len() as int + 3) =~= d);
}

fn push_el(out: &mut Vec<MkvElement>, e: MkvElement)
    ensures
        items(final(out)@) == items(old(out)@).push(e@),
{
    out.push(e);
    assert(items(out@) =~= items(old(out)@).push(e@));
}

fn push_track(out: &mut Vec<MkvElement>, t: u64, kind: u64, codec: &str)
    ensures
        items(final(out)@) == items(old(out)@) + plain_track_items(t, kind, codec@),
{
    let ghost start = items(out@);
    push_el(out, MkvElement::TrackEntryStart);
    push_el(out, MkvElement::TrackNumber(t));
    push_el(out, MkvElement::TrackUid(t));
    push_el(out, MkvElement::TrackType(kind));
    push_el(out, MkvElement::CodecId(String::from_str(codec)));
    push_el(out, MkvElement::TrackEntryEnd);
    assert(items(out@) =~= start + plain_track_items(t, kind, codec@));
}

fn push_header(out: &mut Vec<MkvElement>)
    ensures
        items(final(out)@) == items(old(out)@) + header_items(),
{
    let ghost start = items(out@);
    push_el(out, MkvElement::EbmlStart);
    push_el(out, MkvElement::EbmlVersion(1));
    push_el(out, MkvElement::EbmlReadVersion(1));
    push_el(out, MkvElement::EbmlMaxIdLength(4));
    push_el(out, MkvElement::EbmlMaxSizeLength(8));
    push_el(out, MkvElement::DocType(String::from_str("matroska")));
    push_el(out, MkvElement::DocTypeVersion(4));
    push_el(out, MkvElement::DocTypeReadVersion(2));
    push_el(out, MkvElement::EbmlEnd);
    push_el(out, MkvElement::SegmentStart);
    push_el(out, MkvElement::InfoStart);
    push_el(out, MkvElement::TimestampScale(1_000_000));
    push_el(out, MkvElement::MuxingApp(String::from_str("onas")));
    push_el(out, MkvElement::WritingApp(String::from_str("onas")));
    push_el(out, MkvElement::InfoEnd);
    push_el(out, MkvElement::TracksStart);
    assert(items(out@) =~= start + header_items());
}

fn push_video_track(out: &mut Vec<MkvElement>, t: u64, codec: &str, w: u32, h: u32)
    ensures
        items(final(out)@) == items(old(out)@) + video_track_items(t, codec@, w, h),
{
    let ghost start = items(out@);
    push_el(out, MkvElement::TrackEntryStart);
    push_el(out, MkvElement::TrackNumber(t));
    push_el(out, MkvElement::TrackUid(t));
    push_el(out, MkvElement::TrackType(1));
    push_el(out, MkvElement::CodecId(String::from_str(codec)));
    push_el(out, MkvElement::VideoStart);
    push_el(out, MkvElement::PixelWidth(w as u64));
    push_el(out, MkvElement::PixelHeight(h as u64));
    push_el(out, MkvElement::VideoEnd);
    push_el(out, MkvElement::TrackEntryEnd);
    assert(items(out@) =~= start + video_track_items(t, codec@, w, h));
}

proof fn lemma_base_bound(bs: Seq<BlockSpec>)
    ensures
        base_after(bs) <= i64::MAX,
    decreases bs.len(),
{
    if bs.len() > 0 {
        lemma_base_bound(bs.drop_last());
    }
}

proof fn lemma_one_more(done: Seq<BlockSpec>, b: BlockSpec)
    ensures
        cluster_items(done.push(b)) == cluster_items(done) + step_items(base_after(done), b),
        base_after(done.push(b)) == (if fits(base_after(done), b.1) {
            base_after(done)
        } else {
            new_base(b.1)
        }),
{
    assert(done.push(b).drop_last() =~= done);
}

/// Writes one block while the cluster at `base` is open, opening a new
/// cluster first when its time does not fit; gives the timestamp of the
/// cluster open afterwards.
fn push_block(out: &mut Vec<MkvElement>, base: u64, t: u64, p: i64, k: bool, data: &[u8]) -> (nb: u64)
    requires
        base <= i64::MAX,
    ensures
        items(final(out)@) == items(old(out)@) + step_items(base, (t, p, k, data@)),
        nb == (if fits(base, p) {
            base
        } else {
            new_base(p)
        }),
{
    let ghost start = items(out@);
    let d: i128 = p as i128 - base as i128;
    if -32768 <= d && d <= 32767 {
        let b = simple_block(t, d as i64, k, data);
        push_el(out, MkvElement::SimpleBlock(b));
        assert(items(out@) =~= start + step_items(base, (t, p, k, data@)));
        base
    } else {
        let nb: u64 = if p >= 0 {
            p as u64
        } else {
            0
        };
        push_el(out, MkvElement::ClusterEnd);
        push_el(out, MkvElement::ClusterStart);
        push_el(out, MkvElement::Timestamp(nb));
        let rel: i64 = if p >= 0 {
            0
        } else {
            p
        };
        let b = simple_block(t, rel, k, data);
        push_el(out, MkvElement::SimpleBlock(b));
        assert(items(out@) =~= start + step_items(base, (t, p, k, data@)));
        nb
    }
}

/// Writes every block of the file after the first cluster opened at 0.
fn push_blocks(
    out: &mut Vec<MkvElement>,
    v_pkts: &Vec<VideoPacket>,
    a_pkts: &Vec<AudioPacket>,
    sub_ass: Option<&[u8]>,
    v_track_num: u64,
    a_track_num: Option<u64>,
)
    ensures
        items(final(out)@) == items(old(out)@) + cluster_items(
            all_blocks(
                v_pkts@,
                a_pkts@,
                match sub_ass {
                    Some(s) => Some(s@),
                    None => None,
                },
                v_track_num,
                a_track_num,
            ),
        ),
{
    let ghost sub_v = match sub_ass {
        Some(s) => Some(s@),
        None => None,
    };
    let ghost bs = all_blocks(v_pkts@, a_pkts@, sub_v, v_track_num, a_track_num);
    let ghost vs = video_specs(v_track_num, v_pkts@);
    let ghost avs = audio_specs(a_track_num, a_pkts@);
    let ghost s3 = items(out@);
    let mut base: u64 = 0;
    let mut i: usize = 0;
    assert(vs.take(0) =~= Seq::<BlockSpec>::empty());
    assert(s3 + cluster_items(Seq::<BlockSpec>::empty()) =~= s3);
    while i < v_pkts.len()
        invariant
            i <= v_pkts.len(),
            vs == video_specs(v_track_num, v_pkts@),
            items(out@) == s3 + cluster_items(vs.take(i as int)),
            base == base_after(vs.take(i as int)),
        decreases v_pkts.len() - i,
    {
        proof {
            lemma_base_bound(vs.take(i as int));
            lemma_one_more(vs.take(i as int), vs[i as int]);
            assert(vs.take(i as int).push(vs[i as int]) =~= vs.take(i + 1));
        }
        let p = &v_pkts[i];
        base = push_block(out, base, v_track_num, p.pts, p.keyframe, p.data.as_slice());
        i = i + 1;
    }
    assert(vs.take(v_pkts.len() as int) =~= vs);
    if let Some(atn) = a_track_num {
        let mut j: usize = 0;
        assert(vs + avs.take(0) =~= vs);
        while j < a_pkts.len()
            invariant
                j <= a_pkts.len(),
                a_track_num == Some(atn),
                avs == audio_specs(a_track_num, a_pkts@),
                items(out@) == s3 + cluster_items(vs + avs.take(j as int)),
                base == base_after(vs + avs.take(j as int)),
            decreases a_pkts.len() - j,
        {
            proof {
                lemma_base_bound(vs + avs.take(j as int));
                lemma_one_more(vs + avs.take(j as int), avs[j as int]);
                assert((vs + avs.take(j as int)).push(avs[j as int]) =~= vs + avs.take(j + 1));
            }
            let p = &a_pkts[j];
            base = push_block(out, base, atn, p.pts, false, p.data.as_slice());
            j = j + 1;
        }
        assert(avs.take(a_pkts.len() as int) =~= avs);
    } else {
        assert(vs + avs =~= vs);
    }
    if let Some(ass) = sub_ass {
        proof {
            lemma_base_bound(vs + avs);
            lemma_one_more(vs + avs, (SUB_TRACK, 0i64, false, ass@));
            assert((vs + avs).push((SUB_TRACK, 0i64, false, ass@)) =~= bs);
        }
        base = push_block(out, base, SUB_TRACK, 0, false, ass);
    } else {
        assert(vs + avs =~= bs);
    }
    assert(items(out@) == s3 + cluster_items(bs));
}

/// Lays out the MKV file that holds the given packets: the EBML header and
/// segment info, the video track, the audio track if there is one with
/// packets, the subtitle track if there is a subtitle, then the blocks in
/// clusters: every video block, every audio block (with an audio track)
/// and the subtitle block at time 0, in that order, a new cluster starting
/// whenever a block's time would not fit the open one. Every block whose
/// time is not before -32768 ms reads back at its packet's time.
pub fn write_mkv(
    v_pkts: &Vec<VideoPacket>,
    a_pkts: &Vec<AudioPacket>,
    sub_ass: Option<&[u8]>,
    v_track_num: u64,
    a_track_num: Option<u64>,
    dst_w: u32,
    dst_h: u32,
    v_codec_id: &str,
    a_codec_id: &str,
) -> (r: Vec<MkvElement>)
    ensures
        items(r@) == layout(
            v_pkts@,
            a_pkts@,
            match sub_ass {
                Some(s) => Some(s@),
                None => None,
            },
            v_track_num,
            a_track_num,
            dst_w,
            dst_h,
            v_codec_id@,
            a_codec_id@,
        ),
        ({
            let sub_v = match sub_ass {
                Some(s) => Some(s@),
                None => None,
            };
            let bs = all_blocks(v_pkts@, a_pkts@, sub_v, v_track_num, a_track_num);
            times_representable(bs) ==> read_times(items(r@)) == block_times(bs)
        }),
{
    let mut out: Vec<MkvElement> = Vec::new();
    assert(items(out@) =~= Seq::<MkvItem>::empty());
    push_header(&mut out);
    push_video_track(&mut out, v_track_num, v_codec_id, dst_w, dst_h);
    let ghost s1 = items(out@);
    if let Some(atn) = a_track_num {
        if a_pkts.len() > 0 {
            push_track(&mut out, atn, 2, a_codec_id);
        }
    }
    assert(items(out@) =~= s1 + audio_track_items(a_track_num, a_pkts@.len(), a_codec_id@));
    let ghost s2 = items(out@);
    if sub_ass.is_some() {
        push_track(&mut out, SUB_TRACK, 17, "S_TEXT/ASS");
    }
    assert(items(out@) =~= s2 + sub_track_items(sub_ass is Some));
    push_el(&mut out, MkvElement::TracksEnd);
    push_el(&mut out, MkvElement::ClusterStart);
    push_el(&mut out, MkvElement::Timestamp(0));
    let ghost sub_v = match sub_ass {
        Some(s) => Some(s@),
        None => None,
    };
    let ghost bs = all_blocks(v_pkts@, a_pkts@, sub_v, v_track_num, a_track_num);
    push_blocks(&mut out, v_pkts, a_pkts, sub_ass, v_track_num, a_track_num);
    push_el(&mut out, MkvElement::ClusterEnd);
    push_el(&mut out, MkvElement::SegmentEnd);
    assert(items(out@) =~= layout(
        v_pkts@,
        a_pkts@,
        sub_v,
        v_track_num,
        a_track_num,
        dst_w,
        dst_h,
        v_codec_id@,
        a_codec_id@,
    ));
    proof {
        if times_representable(bs) {
            law_block_times_kept(
                v_pkts@,
                a_pkts@,
                sub_v,
                v_track_num,
                a_track_num,
                dst_w,
                dst_h,
                v_codec_id@,
                a_codec_id@,
            );
        }
    }
    out
}

} // verus!
