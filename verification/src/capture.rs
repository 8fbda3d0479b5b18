//! Screen-capture helpers: display ids, the frame pacing of the capture loop
//! and the RGBA to NV12 colour conversion.

use vstd::prelude::*;
use vstd::arithmetic::div_mod::{lemma_fundamental_div_mod, lemma_fundamental_div_mod_converse, lemma_mod_pos_bound};

verus! {

/// A monitor, by the id the capture backend gives it.
#[derive(Debug, Clone, PartialEq, Eq, Hash)]
pub struct DisplayId(pub u32);

/// A frame in planar YUV: a full-resolution luminance plane and a
/// half-resolution interleaved chrominance plane (NV12).
pub struct YUVFrame {
    pub display_time: u64,
    pub luminance_bytes: Vec<u8>,
    pub luminance_stride: i32,
    pub chrominance_bytes: Vec<u8>,
    pub chrominance_stride: i32,
}

/// Milliseconds between two captured frames at `max_fps` frames per second;
/// a cap of zero counts as one.
pub fn frame_interval_millis(max_fps: u32) -> (millis: u64)
    ensures
        millis == 1000int / (if max_fps >= 1 { max_fps as int } else { 1int }),
{
    let fps: u32 = if max_fps >= 1 { max_fps } else { 1 };
    (1000 / fps) as u64
}

/// The capture loop's schedule after a frame, with times in nanoseconds since
/// the loop started.
pub struct FrameSchedule {
    /// How long to sleep before capturing the next frame.
    pub sleep_nanos: u64,
    /// The deadline of the next frame.
    pub next_frame_nanos: u64,
}

/// The schedule after a frame captured against deadline `next_frame_nanos`:
/// the deadline moves on by one interval; while it is still ahead the loop
/// sleeps until it, and a loop that has fallen behind restarts its schedule
/// from `now_nanos` without sleeping.
pub fn pace(next_frame_nanos: u64, interval_nanos: u64, now_nanos: u64) -> (schedule: FrameSchedule)
    requires
        next_frame_nanos + interval_nanos <= u64::MAX,
    ensures
        next_frame_nanos + interval_nanos > now_nanos ==> schedule.sleep_nanos == next_frame_nanos
            + interval_nanos - now_nanos && schedule.next_frame_nanos == next_frame_nanos + interval_nanos,
        next_frame_nanos + interval_nanos <= now_nanos ==> schedule.sleep_nanos == 0
            && schedule.next_frame_nanos == now_nanos,
{
    let deadline: u64 = next_frame_nanos + interval_nanos;
    if deadline > now_nanos {
        FrameSchedule { sleep_nanos: deadline - now_nanos, next_frame_nanos: deadline }
    } else {
        FrameSchedule { sleep_nanos: 0, next_frame_nanos: now_nanos }
    }
}

/// `v` clamped to a byte.
pub open spec fn clamp_byte(v: int) -> int {
    if v < 0 {
        0
    } else if v > 255 {
        255
    } else {
        v
    }
}

/// BT.601 (studio range) luminance of an RGB pixel: the weighted sum scaled
/// down by 256, rounded down, plus the offset 16.
pub open spec fn luma(r: int, g: int, b: int) -> int {
    clamp_byte((66 * r + 129 * g + 25 * b + 128) / 256 + 16)
}

/// BT.601 blue-difference chrominance, centred on 128.
pub open spec fn chroma_u(r: int, g: int, b: int) -> int {
    clamp_byte((-38 * r - 74 * g + 112 * b + 128) / 256 + 128)
}

/// BT.601 red-difference chrominance, centred on 128.
pub open spec fn chroma_v(r: int, g: int, b: int) -> int {
    clamp_byte((112 * r - 94 * g - 18 * b + 128) / 256 + 128)
}

/// The red, green and blue bytes of pixel `p`.
pub open spec fn red(rgba: Seq<u8>, p: int) -> int {
    rgba[4 * p] as int
}

pub open spec fn green(rgba: Seq<u8>, p: int) -> int {
    rgba[4 * p + 1] as int
}

pub open spec fn blue(rgba: Seq<u8>, p: int) -> int {
    rgba[4 * p + 2] as int
}

/// Whether pixel `p` of a `w`-pixel-wide image is in an even row and an even
/// column, the pixels whose colour the chrominance plane samples.
pub open spec fn samples_chroma(w: int, p: int) -> bool {
    (p / w) % 2 == 0 && (p % w) % 2 == 0
}

/// The chrominance pair that pixel `p` writes.
pub open spec fn chroma_slot(w: int, p: int) -> int {
    ((p / w) / 2) * (w / 2) + (p % w) / 2
}

/// The chrominance plane after the first `n` pixels, in row-major order,
/// have been converted: each sampling pixel writes its U and V into its
/// pair, a later pixel overwriting an earlier one.
pub open spec fn chroma_upto(rgba: Seq<u8>, w: int, size: int, n: int) -> Seq<u8>
    decreases n,
{
    if n <= 0 {
        Seq::new(size as nat, |i: int| 0u8)
    } else {
        let before = chroma_upto(rgba, w, size, n - 1);
        let p = n - 1;
        if samples_chroma(w, p) {
            let k = chroma_slot(w, p);
            before.update(2 * k, chroma_u(red(rgba, p), green(rgba, p), blue(rgba, p)) as u8).update(
                2 * k + 1,
                chroma_v(red(rgba, p), green(rgba, p), blue(rgba, p)) as u8,
            )
        } else {
            before
        }
    }
}

/// The inputs the conversion accepts: a `w` by `h` image whose size fits in
/// memory, whose RGBA bytes cover every pixel, and whose last sampled pixel's
/// chrominance pair lies inside a plane of half the pixel count.
pub open spec fn nv12_fits(rgba_len: int, w: int, h: int) -> bool {
    &&& w * h <= usize::MAX
    &&& w * h == 0 || {
        &&& rgba_len >= 4 * (w * h) - 1
        &&& 2 * (((h - 1) / 2) * (w / 2) + (w - 1) / 2) + 1 < (w * h) / 2
    }
}

/// Integer division rounding toward zero, as Rust's `/` on `i32` does.
pub open spec fn half_toward_zero(x: i32) -> int {
    if x >= 0 {
        x / 2
    } else {
        -((-x) / 2)
    }
}

proof fn lemma_shift_is_floor(x: i32)
    ensures
        (x >> 8i32) as int == (x as int) / 256,
{
    let q = x >> 8i32;
    assert(q * 256 <= x && x - q * 256 < 256) by (bit_vector)
        requires
            q == x >> 8i32,
    ;
}

fn clamp_to_byte(v: i32) -> (b: u8)
    ensures
        b as int == clamp_byte(v as int),
{
    if v < 0 {
        0
    } else if v > 255 {
        255
    } else {
        v as u8
    }
}

/// Converts an RGBA image to an NV12 frame (BT.601).
pub fn rgba_to_nv12(rgba: &[u8], width: i32, height: i32) -> (frame: YUVFrame)
    requires
        nv12_fits(rgba@.len() as int, width as usize as int, height as usize as int),
    ensures
        ({
            let w = width as usize as int;
            let h = height as usize as int;
            &&& frame.luminance_bytes@.len() == w * h
            &&& forall|p: int|
                0 <= p < w * h ==> #[trigger] frame.luminance_bytes@[p] as int == luma(
                    red(rgba@, p),
                    green(rgba@, p),
                    blue(rgba@, p),
                )
            &&& frame.chrominance_bytes@ == chroma_upto(rgba@, w, (w * h) / 2, w * h)
        }),
        frame.display_time == 0,
        frame.luminance_stride == width,
        frame.chrominance_stride as int == half_toward_zero(width),
{
    let rgba_len: usize = rgba.len();
    let w = width as usize;
    let h = height as usize;
    let size: usize = w * h;
    let mut y_plane: Vec<u8> = vec![0u8; size];
    let mut uv_plane: Vec<u8> = vec![0u8; size / 2];
    let ghost wi = w as int;
    let ghost hi = h as int;
    assert(uv_plane@ =~= chroma_upto(rgba@, wi, (size / 2) as int, 0));
    let mut row: usize = 0;
    while row < h
        invariant
            w == wi,
            h == hi,
            size == wi * hi,
            nv12_fits(rgba@.len() as int, wi, hi),
            row <= h,
            rgba_len == rgba@.len(),
            uv_plane@.len() == size / 2,
            y_plane@.len() == size,
            forall|p: int|
                0 <= p < row * wi ==> #[trigger] y_plane@[p] as int == luma(red(rgba@, p), green(rgba@, p), blue(rgba@, p)),
            uv_plane@ == chroma_upto(rgba@, wi, (size / 2) as int, row * wi),
        decreases h - row,
    {
        let mut col: usize = 0;
        assert(row * wi + wi <= wi * hi) by (nonlinear_arith)
            requires row < hi, 0 <= wi;
        while col < w
            invariant
                w == wi,
                h == hi,
                size == wi * hi,
                nv12_fits(rgba@.len() as int, wi, hi),
                row < h,
                col <= w,
                row * wi + wi <= wi * hi,
                rgba_len == rgba@.len(),
                uv_plane@.len() == size / 2,
                y_plane@.len() == size,
                forall|p: int|
                    0 <= p < row * wi + col ==> #[trigger] y_plane@[p] as int == luma(red(rgba@, p), green(rgba@, p), blue(rgba@, p)),
                uv_plane@ == chroma_upto(rgba@, wi, (size / 2) as int, row * wi + col),
            decreases w - col,
        {
            let i: usize = row * w + col;
            let ghost p = i as int;
            proof {
                lemma_fundamental_div_mod_converse(p, wi, row as int, col as int);
            }
            assert(p < wi * hi);
            assert(wi * hi != 0);
            assert(rgba@.len() >= 4 * (wi * hi) - 1);
            assert(rgba_len == rgba@.len());
            assert(4 * p + 2 < rgba_len);
            let r: i32 = rgba[i * 4] as i32;
            let g: i32 = rgba[i * 4 + 1] as i32;
            let b: i32 = rgba[i * 4 + 2] as i32;
            assert(0 <= r <= 255 && 0 <= g <= 255 && 0 <= b <= 255);
            let luma_sum: i32 = 66 * r + 129 * g + 25 * b + 128;
            proof {
                lemma_shift_is_floor(luma_sum);
            }
            let yv: u8 = clamp_to_byte((luma_sum >> 8i32) + 16);
            y_plane.set(i, yv);
            if row % 2 == 0 && col % 2 == 0 {
                proof {
                    assert((row as int / 2) * (wi / 2) <= ((hi - 1) / 2) * (wi / 2)) by (nonlinear_arith)
                        requires row < hi, 0 <= wi, 0 <= row;
                    assert(col as int / 2 <= (wi - 1) / 2);
                    assert(wi * hi != 0);
                }
                let uv_i: usize = (row / 2) * (w / 2) + (col / 2);
                let u_sum: i32 = 112 * b + 128 - 38 * r - 74 * g;
                let v_sum: i32 = 112 * r + 128 - 94 * g - 18 * b;
                proof {
                    lemma_shift_is_floor(u_sum);
                    lemma_shift_is_floor(v_sum);
                }
                let uv: u8 = clamp_to_byte((u_sum >> 8i32) + 128);
                let vv: u8 = clamp_to_byte((v_sum >> 8i32) + 128);
                uv_plane.set(2 * uv_i, uv);
                uv_plane.set(2 * uv_i + 1, vv);
            }
            col = col + 1;
        }
        assert((row + 1) * wi == row * wi + wi) by (nonlinear_arith);
        row = row + 1;
    }
    assert(row * wi == wi * hi) by (nonlinear_arith)
        requires row == hi;
    YUVFrame {
        display_time: 0,
        luminance_bytes: y_plane,
        luminance_stride: width,
        chrominance_bytes: uv_plane,
        chrominance_stride: width / 2,
    }
}

/// Pixel `p` of a `w`-pixel-wide, `h`-pixel-high image lies in row `p / w`
/// and column `p % w`.
proof fn lemma_pixel_at(w: int, h: int, p: int)
    requires
        0 < w,
        0 <= p < w * h,
    ensures
        0 <= p / w < h,
        0 <= p % w < w,
        p == (p / w) * w + p % w,
{
    lemma_fundamental_div_mod(p, w);
    lemma_mod_pos_bound(p, w);
    let r = p / w;
    assert(r * w == w * r) by (nonlinear_arith);
    if r < 0 {
        assert(w * r <= -w) by (nonlinear_arith)
            requires r < 0, w > 0;
    }
    if r >= h {
        assert(w * r >= w * h) by (nonlinear_arith)
            requires r >= h, w > 0;
    }
}

/// The chrominance pair that a pixel of an accepted image writes lies inside
/// the plane.
proof fn lemma_slot_in_plane(rgba_len: int, w: int, h: int, p: int)
    requires
        nv12_fits(rgba_len, w, h),
        0 < w,
        0 <= p < w * h,
    ensures
        0 <= chroma_slot(w, p),
        2 * chroma_slot(w, p) + 1 < (w * h) / 2,
{
    lemma_pixel_at(w, h, p);
    let r = p / w;
    let c = p % w;
    assert(0 <= r / 2 <= (h - 1) / 2);
    assert(0 <= (r / 2) * (w / 2) <= ((h - 1) / 2) * (w / 2)) by (nonlinear_arith)
        requires
            0 <= r / 2 <= (h - 1) / 2,
            0 <= w / 2,
    ;
    assert(0 <= c / 2 <= (w - 1) / 2);
}

/// The chrominance plane keeps its size while the pixels are converted.
proof fn lemma_chroma_len(rgba: Seq<u8>, w: int, h: int, n: int)
    requires
        nv12_fits(rgba.len() as int, w, h),
        0 < w,
        0 <= n <= w * h,
    ensures
        chroma_upto(rgba, w, (w * h) / 2, n).len() == (w * h) / 2,
    decreases n,
{
    if n > 0 {
        lemma_chroma_len(rgba, w, h, n - 1);
        lemma_slot_in_plane(rgba.len() as int, w, h, n - 1);
    }
}

/// In an image of even width, two different sampling pixels write different
/// chrominance pairs.
proof fn lemma_slots_distinct(w: int, h: int, p: int, q: int)
    requires
        0 < w,
        w % 2 == 0,
        0 <= p < w * h,
        0 <= q < w * h,
        samples_chroma(w, p),
        samples_chroma(w, q),
        p != q,
    ensures
        chroma_slot(w, p) != chroma_slot(w, q),
{
    lemma_pixel_at(w, h, p);
    lemma_pixel_at(w, h, q);
    let d = w / 2;
    assert((p % w) / 2 < d);
    assert((q % w) / 2 < d);
    if chroma_slot(w, p) == chroma_slot(w, q) {
        lemma_fundamental_div_mod_converse(chroma_slot(w, p), d, (p / w) / 2, (p % w) / 2);
        lemma_fundamental_div_mod_converse(chroma_slot(w, q), d, (q / w) / 2, (q % w) / 2);
        assert(p / w == q / w);
        assert(p % w == q % w);
    }
}

/// Once sampling pixel `p` has written its pair, the pair keeps its U and V.
proof fn lemma_pair_survives(rgba: Seq<u8>, w: int, h: int, p: int, n: int)
    requires
        nv12_fits(rgba.len() as int, w, h),
        0 < w,
        w % 2 == 0,
        0 <= p < n <= w * h,
        samples_chroma(w, p),
    ensures
        chroma_upto(rgba, w, (w * h) / 2, n)[2 * chroma_slot(w, p)] == chroma_u(red(rgba, p), green(rgba, p), blue(rgba, p)) as u8,
        chroma_upto(rgba, w, (w * h) / 2, n)[2 * chroma_slot(w, p) + 1] == chroma_v(red(rgba, p), green(rgba, p), blue(rgba, p)) as u8,
    decreases n,
{
    let size = (w * h) / 2;
    let k = chroma_slot(w, p);
    lemma_slot_in_plane(rgba.len() as int, w, h, p);
    lemma_chroma_len(rgba, w, h, n - 1);
    if n == p + 1 {
        let before = chroma_upto(rgba, w, size, n - 1);
        let once = before.update(2 * k, chroma_u(red(rgba, p), green(rgba, p), blue(rgba, p)) as u8);
        assert(once.len() == size);
        assert(once[2 * k] == chroma_u(red(rgba, p), green(rgba, p), blue(rgba, p)) as u8);
    } else {
        lemma_pair_survives(rgba, w, h, p, n - 1);
        let q = n - 1;
        if samples_chroma(w, q) {
            lemma_slots_distinct(w, h, p, q);
            lemma_slot_in_plane(rgba.len() as int, w, h, q);
            let before = chroma_upto(rgba, w, size, n - 1);
            let j = chroma_slot(w, q);
            let once = before.update(2 * j, chroma_u(red(rgba, q), green(rgba, q), blue(rgba, q)) as u8);
            assert(once.len() == size);
            assert(once[2 * k] == before[2 * k]);
            assert(once[2 * k + 1] == before[2 * k + 1]);
        }
    }
}

/// In an image of even width, the chrominance pair of each 2x2 block holds
/// the U and V of the block's top-left pixel: every sampling pixel writes a
/// pair of its own, and no later pixel overwrites it.
pub proof fn law_chroma_pair_is_block_top_left(rgba: Seq<u8>, w: int, h: int, row: int, col: int)
    requires
        nv12_fits(rgba.len() as int, w, h),
        w % 2 == 0,
        0 <= row < h,
        0 <= col < w,
        row % 2 == 0,
        col % 2 == 0,
    ensures
        ({
            let p = row * w + col;
            let k = (row / 2) * (w / 2) + col / 2;
            &&& chroma_upto(rgba, w, (w * h) / 2, w * h)[2 * k] == chroma_u(red(rgba, p), green(rgba, p), blue(rgba, p)) as u8
            &&& chroma_upto(rgba, w, (w * h) / 2, w * h)[2 * k + 1] == chroma_v(red(rgba, p), green(rgba, p), blue(rgba, p)) as u8
        }),
{
    let p = row * w + col;
    assert(p < w * h) by (nonlinear_arith)
        requires
            0 <= row < h,
            0 <= col < w,
            p == row * w + col,
    ;
    assert(0 <= p) by (nonlinear_arith)
        requires
            0 <= row,
            0 <= col,
            0 < w,
            p == row * w + col,
    ;
    lemma_fundamental_div_mod_converse(p, w, row, col);
    assert(samples_chroma(w, p));
    assert(chroma_slot(w, p) == (row / 2) * (w / 2) + col / 2);
    lemma_pair_survives(rgba, w, h, p, w * h);
}

} // verus!
