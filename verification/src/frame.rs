//! Still-frame extraction: which decoded frame a request asks for, and the
//! conversion of a decoded 4:2:0 frame into RGBA pixels for the image
//! encoders.
use vstd::prelude::*;
use crate::image::Rgba8;
use crate::video::YuvFrame;

verus! {

// ─── frame choice ────────────────────────────────────────────────────────────

/// Whether the decoded frame number `index` (zero-based), shown at `pts`
/// milliseconds, is the one asked for: the `--at-frame` index if given,
/// else the first frame at or after the `--at` time if given, else the
/// first decodable frame.
pub open spec fn wanted(at_ms: Option<i64>, at_frame: Option<u64>, index: u64, pts: i64) -> bool {
    match at_frame {
        Some(n) => index == n,
        None => match at_ms {
            Some(t) => pts >= t,
            None => true,
        },
    }
}

/// Which frame a request extracts: with `--at-frame n`, the frame of index
/// `n` and only it, whatever `--at` says; else with `--at t`, the frames
/// shown at or after `t`; with neither, any frame (so the first decoded).
pub proof fn law_frame_choice(at_ms: Option<i64>, at_frame: Option<u64>, index: u64, pts: i64)
    ensures
        at_frame matches Some(n) ==> (wanted(at_ms, at_frame, index, pts) <==> index == n),
        at_frame is None && at_ms is Some ==> (wanted(at_ms, at_frame, index, pts) <==> pts
            >= at_ms->0),
        at_frame is None && at_ms is None ==> wanted(at_ms, at_frame, index, pts),
{
}

/// Decides whether a decoded frame is the one to extract.
pub fn frame_wanted(at_ms: Option<i64>, at_frame: Option<u64>, index: u64, pts: i64) -> (r: bool)
    ensures
        r == wanted(at_ms, at_frame, index, pts),
{
    match at_frame {
        Some(n) => index == n,
        None => match at_ms {
            Some(t) => pts >= t,
            None => true,
        },
    }
}

/// Of `n` frames decoded together from a block at time `pts`, counted from
/// `index` on, picks the first that the request asks for; `index` counts on
/// past every frame passed over, and is left on the one picked.
pub fn pick_frame(n: usize, at_ms: Option<i64>, at_frame: Option<u64>, index: &mut u64, pts: i64) -> (r: Option<usize>)
    requires
        *old(index) + n <= u64::MAX,
    ensures
        match r {
            Some(k) => k < n && wanted(at_ms, at_frame, (*old(index) + k) as u64, pts)
                && (forall|j: int| 0 <= j < k ==> !wanted(at_ms, at_frame, #[trigger] (*old(index) + j) as u64, pts))
                && *final(index) == *old(index) + k,
            None => (forall|j: int| 0 <= j < n ==> !wanted(at_ms, at_frame, #[trigger] (*old(index) + j) as u64, pts))
                && *final(index) == *old(index) + n,
        },
{
    let ghost start = *index;
    let mut k: usize = 0;
    while k < n
        invariant
            k <= n,
            start + n <= u64::MAX,
            start == *old(index),
            *index == start + k,
            forall|j: int| 0 <= j < k ==> !wanted(at_ms, at_frame, #[trigger] (start + j) as u64, pts),
        decreases n - k,
    {
        if frame_wanted(at_ms, at_frame, *index, pts) {
            return Some(k);
        }
        *index = *index + 1;
        k = k + 1;
    }
    None
}

// ─── YUV to RGBA ─────────────────────────────────────────────────────────────

/// A value of the fixed-point conversion (scaled by 256) as a byte: below
/// zero gives 0, above 255 gives 255.
pub open spec fn to_byte(num: int) -> u8 {
    if num < 0 {
        0
    } else if num / 256 > 255 {
        255
    } else {
        (num / 256) as u8
    }
}

/// The red, green and blue of one pixel from its luma and chroma, BT.601
/// limited range in 8.8 fixed point.
pub open spec fn rgb_of_yuv(y: u8, u: u8, v: u8) -> (u8, u8, u8) {
    let c = y - 16;
    let d = u - 128;
    let e = v - 128;
    (
        to_byte(298 * c + 409 * e + 128),
        to_byte(298 * c - 100 * d - 208 * e + 128),
        to_byte(298 * c + 516 * d + 128),
    )
}

/// The width of a frame's chroma planes.
pub open spec fn chroma_w(w: u32) -> int {
    (w / 2) as int
}

/// The chroma sample of the pixel at row `r`, column `c`: the sample of
/// the 2×2 block that holds it, the last column of an odd width sharing
/// the one before it.
pub open spec fn chroma_index(w: u32, r: int, c: int) -> int {
    let cw = chroma_w(w);
    let cx = if c / 2 < cw {
        c / 2
    } else {
        cw - 1
    };
    (r / 2) * cw + cx
}

/// The planes of the frame are large enough for its size.
pub open spec fn planes_fit(f: YuvFrame) -> bool {
    &&& f.w >= 2
    &&& f.y@.len() >= f.w * f.h
    &&& f.u@.len() >= chroma_w(f.w) * ((f.h + 1) / 2)
    &&& f.v@.len() >= chroma_w(f.w) * ((f.h + 1) / 2)
}

/// The RGB of pixel `k` (row-major) of the frame.
pub open spec fn pixel_rgb(f: YuvFrame, k: int) -> (u8, u8, u8) {
    let ci = chroma_index(f.w, k / (f.w as int), k % (f.w as int));
    rgb_of_yuv(f.y@[k], f.u@[ci], f.v@[ci])
}

/// Byte `j` of the RGBA pixels of the frame: red, green, blue, then an
/// opaque alpha for each pixel.
pub open spec fn rgba_byte(f: YuvFrame, j: int) -> u8 {
    let p = pixel_rgb(f, j / 4);
    if j % 4 == 0 {
        p.0
    } else if j % 4 == 1 {
        p.1
    } else if j % 4 == 2 {
        p.2
    } else {
        255
    }
}

fn to_byte_exec(num: i32) -> (r: u8)
    ensures
        r == to_byte(num as int),
{
    if num < 0 {
        0
    } else if num / 256 > 255 {
        255
    } else {
        (num / 256) as u8
    }
}

fn rgb_exec(y: u8, u: u8, v: u8) -> (r: (u8, u8, u8))
    ensures
        r == rgb_of_yuv(y, u, v),
{
    let c: i32 = y as i32 - 16;
    let d: i32 = u as i32 - 128;
    let e: i32 = v as i32 - 128;
    (
        to_byte_exec(298 * c + 409 * e + 128),
        to_byte_exec(298 * c - 100 * d - 208 * e + 128),
        to_byte_exec(298 * c + 516 * d + 128),
    )
}

proof fn lemma_chroma_in(w: u32, h: u32, r: int, c: int)
    requires
        w >= 2,
        0 <= r < h,
        0 <= c < w,
    ensures
        0 <= chroma_index(w, r, c) < chroma_w(w) * ((h + 1) / 2),
{
    let cw = chroma_w(w);
    let cx = if c / 2 < cw {
        c / 2
    } else {
        cw - 1
    };
    assert(0 <= cx < cw);
    assert(r / 2 < (h + 1) / 2);
    assert((r / 2) * cw + cx < ((h + 1) / 2) * cw) by (nonlinear_arith)
        requires
            0 <= r / 2 < (h + 1) / 2,
            0 <= cx < cw,
    ;
    assert(0 <= (r / 2) * cw) by (nonlinear_arith)
        requires
            0 <= r / 2,
            0 <= cw,
    ;
}

proof fn lemma_row_col(k: int, w: int, h: int)
    requires
        w > 0,
        0 <= k < w * h,
    ensures
        0 <= k / w < h,
        0 <= k % w < w,
{
    assert(k / w < h) by (nonlinear_arith)
        requires
            w > 0,
            0 <= k < w * h,
    ;
}

/// The frame as RGBA8 pixels (BT.601 limited range, opaque), `w`×`h`.
pub fn yuv_to_rgba(f: &YuvFrame) -> (r: Rgba8)
    requires
        planes_fit(*f),
        4 * f.w * f.h <= usize::MAX,
    ensures
        r.w == f.w,
        r.h == f.h,
        r.data@.len() == 4 * f.w * f.h,
        forall|j: int| 0 <= j < r.data@.len() ==> #[trigger] r.data@[j] == rgba_byte(*f, j),
{
    let w: usize = f.w as usize;
    assert(4 * f.w * f.h == 4 * ((f.w as int) * (f.h as int))) by (nonlinear_arith);
    let n: usize = w * (f.h as usize);
    let cw: usize = w / 2;
    let mut out: Vec<u8> = Vec::new();
    let mut k: usize = 0;
    while k < n
        invariant
            w == f.w,
            w >= 2,
            cw == w / 2,
            n == f.w * f.h,
            4 * n == 4 * f.w * f.h,
            4 * n <= usize::MAX,
            planes_fit(*f),
            k <= n,
            out@.len() == 4 * k,
            forall|j: int| 0 <= j < out@.len() ==> #[trigger] out@[j] == rgba_byte(*f, j),
        decreases n - k,
    {
        let row: usize = k / w;
        let col: usize = k % w;
        proof {
            lemma_row_col(k as int, w as int, f.h as int);
            lemma_chroma_in(f.w, f.h, row as int, col as int);
        }
        let cx: usize = if col / 2 < cw {
            col / 2
        } else {
            cw - 1
        };
        let half: usize = row / 2;
        assert(half * cw + cx == chroma_index(f.w, row as int, col as int));
        assert(chroma_index(f.w, row as int, col as int) < f.u@.len());
        assert(0 <= half * cw) by (nonlinear_arith);
        let ulen: usize = f.u.len();
        assert(half * cw + cx < ulen);
        let hc: usize = half * cw;
        let ci: usize = hc + cx;
        let (rr, gg, bb) = rgb_exec(f.y[k], f.u[ci], f.v[ci]);
        assert((rr, gg, bb) == pixel_rgb(*f, k as int));
        let ghost before = out@;
        out.push(rr);
        out.push(gg);
        out.push(bb);
        out.push(255u8);
        assert forall|j: int| 0 <= j < out@.len() implies #[trigger] out@[j] == rgba_byte(*f, j) by {
            if j >= 4 * k {
                assert(j / 4 == k as int);
            } else {
                assert(out@[j] == before[j]);
            }
        }
        k = k + 1;
    }
    Rgba8 { w: f.w, h: f.h, data: out }
}

/// Each pixel takes the chroma of the 2×2 block it lies in: the pixel at
/// row `r`, column `c` of a frame whose planes fit is converted from its
/// own luma and the chroma sample `(r / 2) * (w / 2) + c / 2`; a last
/// column of an odd width takes the last sample of its row of blocks. Its
/// alpha is opaque.
pub proof fn law_pixel_uses_its_block(f: YuvFrame, r: int, c: int)
    requires
        planes_fit(f),
        0 <= r < f.h,
        0 <= c < f.w,
    ensures
        ({
            let w = f.w as int;
            let cw = w / 2;
            let ci = if c < 2 * cw {
                (r / 2) * cw + c / 2
            } else {
                (r / 2) * cw + cw - 1
            };
            let k = r * w + c;
            let p = rgb_of_yuv(f.y@[k], f.u@[ci], f.v@[ci]);
            &&& rgba_byte(f, 4 * k) == p.0
            &&& rgba_byte(f, 4 * k + 1) == p.1
            &&& rgba_byte(f, 4 * k + 2) == p.2
            &&& rgba_byte(f, 4 * k + 3) == 255
        }),
{
    let w = f.w as int;
    let k = r * w + c;
    assert(k / w == r && k % w == c) by (nonlinear_arith)
        requires
            k == r * w + c,
            0 <= c < w,
            0 <= r,
    ;
    assert((4 * k) / 4 == k && (4 * k + 1) / 4 == k && (4 * k + 2) / 4 == k && (4 * k + 3) / 4 == k);
    assert((4 * k) % 4 == 0 && (4 * k + 1) % 4 == 1 && (4 * k + 2) % 4 == 2 && (4 * k + 3) % 4 == 3);
}

proof fn lemma_to_byte_mono(a: int, b: int)
    requires
        a <= b,
    ensures
        to_byte(a) <= to_byte(b),
{
    if a >= 0 {
        assert(a / 256 <= b / 256);
    }
}

/// How the colour of a pixel follows its samples: without chroma
/// (`u == v == 128`) it is a grey, black at luma 16 and white at 235; red
/// depends on `v` and not on `u`, blue on `u` and not on `v`, both rising
/// with them, green falling with both; every channel rises with luma.
pub proof fn law_colour_channels(y: u8, y2: u8, u: u8, u2: u8, v: u8, v2: u8)
    ensures
        rgb_of_yuv(y, 128, 128).0 == rgb_of_yuv(y, 128, 128).1 == rgb_of_yuv(y, 128, 128).2,
        rgb_of_yuv(16, 128, 128) == (0u8, 0u8, 0u8),
        rgb_of_yuv(235, 128, 128) == (255u8, 255u8, 255u8),
        rgb_of_yuv(y, u, v).0 == rgb_of_yuv(y, u2, v).0,
        rgb_of_yuv(y, u, v).2 == rgb_of_yuv(y, u, v2).2,
        v <= v2 ==> rgb_of_yuv(y, u, v).0 <= rgb_of_yuv(y, u, v2).0,
        u <= u2 ==> rgb_of_yuv(y, u, v).2 <= rgb_of_yuv(y, u2, v).2,
        v <= v2 ==> rgb_of_yuv(y, u, v2).1 <= rgb_of_yuv(y, u, v).1,
        u <= u2 ==> rgb_of_yuv(y, u2, v).1 <= rgb_of_yuv(y, u, v).1,
        y <= y2 ==> rgb_of_yuv(y, u, v).0 <= rgb_of_yuv(y2, u, v).0 && rgb_of_yuv(y, u, v).1
            <= rgb_of_yuv(y2, u, v).1 && rgb_of_yuv(y, u, v).2 <= rgb_of_yuv(y2, u, v).2,
{
    let c = y - 16;
    let c2 = y2 - 16;
    let d = u - 128;
    let d2 = u2 - 128;
    let e = v - 128;
    let e2 = v2 - 128;
    if v <= v2 {
        lemma_to_byte_mono(298 * c + 409 * e + 128, 298 * c + 409 * e2 + 128);
        lemma_to_byte_mono(298 * c - 100 * d - 208 * e2 + 128, 298 * c - 100 * d - 208 * e + 128);
    }
    if u <= u2 {
        lemma_to_byte_mono(298 * c + 516 * d + 128, 298 * c + 516 * d2 + 128);
        lemma_to_byte_mono(298 * c - 100 * d2 - 208 * e + 128, 298 * c - 100 * d - 208 * e + 128);
    }
    if y <= y2 {
        lemma_to_byte_mono(298 * c + 409 * e + 128, 298 * c2 + 409 * e + 128);
        lemma_to_byte_mono(298 * c - 100 * d - 208 * e + 128, 298 * c2 - 100 * d - 208 * e + 128);
        lemma_to_byte_mono(298 * c + 516 * d + 128, 298 * c2 + 516 * d + 128);
    }
    assert(to_byte(128int) == 0);
    assert(to_byte(65390int) == 255);
}

} // verus!
