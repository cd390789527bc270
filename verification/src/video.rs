//! The worker's video path decisions: keyframe detection in H.264 output, the adaptive
//! quality profile, frame pacing, and nearest-neighbour scaling of RGBA frames.
use vstd::prelude::*;

use crate::libretro::{RetroPixelFormat, VideoFrame};

verus! {

/// The RTP clock rate of video.
pub const VIDEO_RTP_CLOCK_RATE: u32 = 90000;

/// The H.264 format parameters announced in SDP: Constrained Baseline, level 3.1.
pub const H264_SDP_FMTP_LINE: &'static str = "level-asymmetry-allowed=1;packetization-mode=1;profile-level-id=42e01f";

pub const VIDEO_WIDTH_LIMIT: u32 = 960;
pub const VIDEO_HEIGHT_LIMIT: u32 = 540;
pub const VIDEO_WIDTH_LIMIT_MIN: u32 = 704;
pub const VIDEO_HEIGHT_LIMIT_MIN: u32 = 416;
pub const VIDEO_WIDTH_LIMIT_STEP: u32 = 80;
pub const VIDEO_HEIGHT_LIMIT_STEP: u32 = 45;
pub const VIDEO_FRAME_INTERVAL_MS: u64 = 16;
pub const VIDEO_FRAME_INTERVAL_MS_MIN: u64 = 16;
pub const VIDEO_FRAME_INTERVAL_MS_MAX: u64 = 50;
pub const VIDEO_FRAME_INTERVAL_STEP_MS: u64 = 4;

/// Macroblocks per second allowed by H.264 level 3.1.
pub const H264_LEVEL_3_1_MBS_PER_SEC: u64 = 108000;

/// Whether `pat` occurs in `b` at position `i`.
pub open spec fn bytes_at(b: Seq<u8>, i: int, pat: Seq<u8>) -> bool {
    0 <= i && i + pat.len() <= b.len() && b.subrange(i, i + pat.len()) == pat
}

/// The length of the Annex B start code at position `i`: four bytes, three, or none.
pub open spec fn start_code_len(b: Seq<u8>, i: int) -> int {
    if bytes_at(b, i, seq![0u8, 0u8, 0u8, 1u8]) {
        4
    } else if bytes_at(b, i, seq![0u8, 0u8, 1u8]) {
        3
    } else {
        0
    }
}

/// Whether the NAL unit whose header byte is `h` is an IDR slice (type 5).
pub open spec fn is_idr_header(h: u8) -> bool {
    h & 0x1f == 5
}

/// Scanning an Annex B byte stream from position `i` for start codes: whether one was
/// seen, and whether a NAL unit after one is an IDR slice. After a NAL header the scan
/// resumes at the next byte; a start code with nothing after it ends the scan.
pub open spec fn annexb_scan(b: Seq<u8>, i: int) -> (bool, bool)
    decreases b.len() - i,
{
    if i < 0 || i + 3 > b.len() {
        (false, false)
    } else if start_code_len(b, i) == 0 {
        annexb_scan(b, i + 1)
    } else {
        let s = i + start_code_len(b, i);
        if s >= b.len() {
            (true, false)
        } else if is_idr_header(b[s]) {
            (true, true)
        } else {
            (true, annexb_scan(b, s + 1).1)
        }
    }
}

/// The big-endian 32-bit length at position `i`.
pub open spec fn be_len(b: Seq<u8>, i: int) -> int {
    b[i] * 16777216 + b[i + 1] * 65536 + b[i + 2] * 256 + b[i + 3]
}

/// Walking length-prefixed (AVCC) NAL units from position `i`: whether one is an IDR slice.
/// Empty units are skipped; a unit that runs past the end stops the walk.
pub open spec fn avcc_scan(b: Seq<u8>, i: int) -> bool
    decreases b.len() - i,
{
    if i < 0 || i + 4 > b.len() {
        false
    } else {
        let n = be_len(b, i);
        let j = i + 4;
        if n == 0 {
            avcc_scan(b, j)
        } else if j + n > b.len() {
            false
        } else if is_idr_header(b[j]) {
            true
        } else {
            avcc_scan(b, j + n)
        }
    }
}

/// Whether an encoded frame holds an IDR slice: read as Annex B when it has a start code,
/// else as length-prefixed NAL units.
pub open spec fn contains_idr(b: Seq<u8>) -> bool {
    if b.len() == 0 {
        false
    } else if annexb_scan(b, 0).0 {
        annexb_scan(b, 0).1
    } else {
        avcc_scan(b, 0)
    }
}

fn start_code_at(b: &[u8], i: usize) -> (n: usize)
    requires
        i + 3 <= b@.len(),
    ensures
        n == start_code_len(b@, i as int),
{
    if b.len() - i >= 4 && b[i] == 0 && b[i + 1] == 0 && b[i + 2] == 0 && b[i + 3] == 1 {
        assert(b@.subrange(i as int, i + 4) =~= seq![0u8, 0u8, 0u8, 1u8]);
        return 4;
    }
    assert(!bytes_at(b@, i as int, seq![0u8, 0u8, 0u8, 1u8])) by {
        if i + 4 <= b@.len() && b@.subrange(i as int, i + 4) == seq![0u8, 0u8, 0u8, 1u8] {
            assert(b@.subrange(i as int, i + 4)[0] == b@[i as int]);
            assert(b@.subrange(i as int, i + 4)[1] == b@[i + 1]);
            assert(b@.subrange(i as int, i + 4)[2] == b@[i + 2]);
            assert(b@.subrange(i as int, i + 4)[3] == b@[i + 3]);
        }
    }
    if b[i] == 0 && b[i + 1] == 0 && b[i + 2] == 1 {
        assert(b@.subrange(i as int, i + 3) =~= seq![0u8, 0u8, 1u8]);
        return 3;
    }
    assert(!bytes_at(b@, i as int, seq![0u8, 0u8, 1u8])) by {
        if b@.subrange(i as int, i + 3) == seq![0u8, 0u8, 1u8] {
            assert(b@.subrange(i as int, i + 3)[0] == b@[i as int]);
            assert(b@.subrange(i as int, i + 3)[1] == b@[i + 1]);
            assert(b@.subrange(i as int, i + 3)[2] == b@[i + 2]);
        }
    }
    0
}

/// Whether an encoded H.264 frame holds an IDR slice (a keyframe), for Annex B streams and
/// for length-prefixed NAL units.
pub fn h264_contains_idr(bitstream: &[u8]) -> (r: bool)
    ensures
        r == contains_idr(bitstream@),
{
    let b = bitstream;
    let n = b.len();
    if n == 0 {
        return false;
    }
    let mut i: usize = 0;
    let mut found_start_code = false;
    let idr = false;
    while i < n && n - i >= 3
        invariant
            n == b@.len(),
            b@ == bitstream@,
            n > 0,
            i <= n,
            annexb_scan(b@, 0) == (if found_start_code {
                (true, idr || annexb_scan(b@, i as int).1)
            } else {
                annexb_scan(b@, i as int)
            }),
            !idr,
        decreases n - i,
    {
        let sc = start_code_at(b, i);
        if sc == 0 {
            assert(annexb_scan(b@, i as int) == annexb_scan(b@, i + 1));
            i = i + 1;
        } else {
            let nal_start = i + sc;
            if nal_start >= n {
                assert(annexb_scan(b@, i as int) == (true, false));
                found_start_code = true;
                i = n;
                assert(annexb_scan(b@, i as int) == (false, false));
            } else {
                if b[nal_start] & 0x1f == 5 {
                    assert(annexb_scan(b@, i as int) == (true, true));
                    return true;
                }
                assert(annexb_scan(b@, i as int) == (true, annexb_scan(b@, nal_start + 1).1));
                found_start_code = true;
                i = nal_start + 1;
            }
        }
    }
    assert(annexb_scan(b@, i as int) == (false, false));
    if found_start_code {
        return false;
    }
    let mut i: usize = 0;
    while i < n && n - i >= 4
        invariant
            n == b@.len(),
            b@ == bitstream@,
            n > 0,
            i <= n,
            !annexb_scan(b@, 0).0,
            avcc_scan(b@, 0) == avcc_scan(b@, i as int),
        decreases n - i,
    {
        let len: u64 = (b[i] as u64) * 16777216 + (b[i + 1] as u64) * 65536 + (b[i + 2] as u64) * 256 + (b[i
            + 3] as u64);
        assert(len == be_len(b@, i as int));
        let j = i + 4;
        if len == 0 {
            assert(avcc_scan(b@, i as int) == avcc_scan(b@, j as int));
            i = j;
        } else {
            if len > (n - j) as u64 {
                assert(avcc_scan(b@, i as int) == false);
                return false;
            }
            if b[j] & 0x1f == 5 {
                assert(avcc_scan(b@, i as int) == true);
                return true;
            }
            assert(avcc_scan(b@, i as int) == avcc_scan(b@, j + len));
            i = j + len as usize;
        }
    }
    assert(avcc_scan(b@, i as int) == false);
    false
}

/// A video quality target: the largest frame size and the time between frames.
#[derive(Debug, Clone, Copy, PartialEq, Eq, Structural)]
pub struct VideoProfile {
    pub target_width: u32,
    pub target_height: u32,
    pub frame_interval_ms: u64,
}

/// The full-quality profile.
pub open spec fn default_profile() -> VideoProfile {
    VideoProfile {
        target_width: VIDEO_WIDTH_LIMIT,
        target_height: VIDEO_HEIGHT_LIMIT,
        frame_interval_ms: VIDEO_FRAME_INTERVAL_MS,
    }
}

/// The least of two integers.
pub open spec fn min_int(a: int, b: int) -> int {
    if a <= b {
        a
    } else {
        b
    }
}

/// The greatest of two integers.
pub open spec fn max_int(a: int, b: int) -> int {
    if a >= b {
        a
    } else {
        b
    }
}

/// One step down in quality: smaller frames and a longer interval, within the floor.
pub open spec fn degraded(p: VideoProfile) -> VideoProfile {
    VideoProfile {
        target_width: max_int(max_int(p.target_width - VIDEO_WIDTH_LIMIT_STEP, 0), VIDEO_WIDTH_LIMIT_MIN as int) as u32,
        target_height: max_int(max_int(p.target_height - VIDEO_HEIGHT_LIMIT_STEP, 0), VIDEO_HEIGHT_LIMIT_MIN as int) as u32,
        frame_interval_ms: min_int(min_int(p.frame_interval_ms + VIDEO_FRAME_INTERVAL_STEP_MS, u64::MAX as int), VIDEO_FRAME_INTERVAL_MS_MAX as int) as u64,
    }
}

/// One step up in quality: larger frames and a shorter interval, within the ceiling.
pub open spec fn restored(p: VideoProfile) -> VideoProfile {
    VideoProfile {
        target_width: min_int(p.target_width + VIDEO_WIDTH_LIMIT_STEP, VIDEO_WIDTH_LIMIT as int) as u32,
        target_height: min_int(p.target_height + VIDEO_HEIGHT_LIMIT_STEP, VIDEO_HEIGHT_LIMIT as int) as u32,
        frame_interval_ms: max_int(max_int(p.frame_interval_ms - VIDEO_FRAME_INTERVAL_STEP_MS, 0), VIDEO_FRAME_INTERVAL_MS_MIN as int) as u64,
    }
}

/// A profile between the floor and the ceiling.
pub open spec fn profile_in_range(p: VideoProfile) -> bool {
    &&& VIDEO_WIDTH_LIMIT_MIN <= p.target_width <= VIDEO_WIDTH_LIMIT
    &&& VIDEO_HEIGHT_LIMIT_MIN <= p.target_height <= VIDEO_HEIGHT_LIMIT
    &&& VIDEO_FRAME_INTERVAL_MS_MIN <= p.frame_interval_ms <= VIDEO_FRAME_INTERVAL_MS_MAX
}

impl VideoProfile {
    /// The full-quality profile.
    pub fn default() -> (p: Self)
        ensures
            p == default_profile(),
    {
        VideoProfile {
            target_width: VIDEO_WIDTH_LIMIT,
            target_height: VIDEO_HEIGHT_LIMIT,
            frame_interval_ms: VIDEO_FRAME_INTERVAL_MS,
        }
    }
}

/// Lowers the quality one step.
pub fn degrade_video_profile(profile: &mut VideoProfile)
    ensures
        *final(profile) == degraded(*old(profile)),
{
    let w = profile.target_width.saturating_sub(VIDEO_WIDTH_LIMIT_STEP);
    profile.target_width = if w > VIDEO_WIDTH_LIMIT_MIN { w } else { VIDEO_WIDTH_LIMIT_MIN };
    let h = profile.target_height.saturating_sub(VIDEO_HEIGHT_LIMIT_STEP);
    profile.target_height = if h > VIDEO_HEIGHT_LIMIT_MIN { h } else { VIDEO_HEIGHT_LIMIT_MIN };
    let f = profile.frame_interval_ms.saturating_add(VIDEO_FRAME_INTERVAL_STEP_MS);
    profile.frame_interval_ms = if f < VIDEO_FRAME_INTERVAL_MS_MAX { f } else { VIDEO_FRAME_INTERVAL_MS_MAX };
}

/// Raises the quality one step.
pub fn restore_video_profile(profile: &mut VideoProfile)
    requires
        old(profile).target_width + VIDEO_WIDTH_LIMIT_STEP <= u32::MAX,
        old(profile).target_height + VIDEO_HEIGHT_LIMIT_STEP <= u32::MAX,
    ensures
        *final(profile) == restored(*old(profile)),
{
    let w = profile.target_width + VIDEO_WIDTH_LIMIT_STEP;
    profile.target_width = if w < VIDEO_WIDTH_LIMIT { w } else { VIDEO_WIDTH_LIMIT };
    let h = profile.target_height + VIDEO_HEIGHT_LIMIT_STEP;
    profile.target_height = if h < VIDEO_HEIGHT_LIMIT { h } else { VIDEO_HEIGHT_LIMIT };
    let f = profile.frame_interval_ms.saturating_sub(VIDEO_FRAME_INTERVAL_STEP_MS);
    profile.frame_interval_ms = if f > VIDEO_FRAME_INTERVAL_MS_MIN { f } else { VIDEO_FRAME_INTERVAL_MS_MIN };
}

/// Whether the profile is at the lowest quality.
pub fn is_min_video_profile(profile: &VideoProfile) -> (b: bool)
    ensures
        b == (profile.target_width == VIDEO_WIDTH_LIMIT_MIN && profile.target_height == VIDEO_HEIGHT_LIMIT_MIN
            && profile.frame_interval_ms == VIDEO_FRAME_INTERVAL_MS_MAX),
{
    profile.target_width == VIDEO_WIDTH_LIMIT_MIN && profile.target_height == VIDEO_HEIGHT_LIMIT_MIN
        && profile.frame_interval_ms == VIDEO_FRAME_INTERVAL_MS_MAX
}

/// `n / d` rounded up.
pub open spec fn ceil_div(n: int, d: int) -> int {
    (n + d - 1) / d
}

/// The shortest interval between frames that keeps a `width` x `height` stream within
/// H.264 level 3.1, and never below the default interval.
pub open spec fn min_frame_interval(width: u32, height: u32) -> u64 {
    if width == 0 || height == 0 {
        VIDEO_FRAME_INTERVAL_MS_MIN
    } else {
        let mbs = ceil_div(width as int, 16) * ceil_div(height as int, 16);
        let fps = max_int(H264_LEVEL_3_1_MBS_PER_SEC as int / max_int(mbs, 1), 1);
        max_int(ceil_div(1000, fps), VIDEO_FRAME_INTERVAL_MS_MIN as int) as u64
    }
}

/// The shortest interval between frames that H.264 level 3.1 allows at this size.
pub fn h264_min_frame_interval_ms(width: u32, height: u32) -> (ms: u64)
    ensures
        ms == min_frame_interval(width, height),
{
    if width == 0 || height == 0 {
        return VIDEO_FRAME_INTERVAL_MS_MIN;
    }
    let mw: u64 = (width as u64 + 15) / 16;
    let mh: u64 = (height as u64 + 15) / 16;
    assert(mw <= 268435456 && mh <= 268435456);
    assert(mw * mh <= 268435456 * 268435456) by (nonlinear_arith)
        requires
            mw <= 268435456,
            mh <= 268435456,
    ;
    let mbs = mw * mh;
    let mbs1 = if mbs > 1 { mbs } else { 1 };
    let q = H264_LEVEL_3_1_MBS_PER_SEC / mbs1;
    let fps = if q > 1 { q } else { 1 };
    let interval = (1000 + fps - 1) / fps;
    if interval > VIDEO_FRAME_INTERVAL_MS_MIN {
        interval
    } else {
        VIDEO_FRAME_INTERVAL_MS_MIN
    }
}

/// Byte `k` of a `dst_w` x `dst_h` RGBA image scaled from a `src_w` x `src_h` one by
/// nearest neighbour: the same channel of the source pixel at row `y * src_h / dst_h` and
/// column `x * src_w / dst_w`, for the pixel at row `y`, column `x` that byte `k` belongs to.
pub open spec fn scaled_byte(src: Seq<u8>, src_w: int, src_h: int, dst_w: int, dst_h: int, k: int) -> u8 {
    let y = k / (4 * dst_w);
    let x = (k % (4 * dst_w)) / 4;
    let c = k % 4;
    src[(y * src_h / dst_h) * (4 * src_w) + (x * src_w / dst_w) * 4 + c]
}

/// Whether nearest-neighbour scaling succeeds: no size is zero, the source holds its
/// pixels, and the scaled image fits in memory.
pub open spec fn can_scale(src_len: int, src_w: int, src_h: int, dst_w: int, dst_h: int) -> bool {
    &&& src_w > 0 && src_h > 0 && dst_w > 0 && dst_h > 0
    &&& src_len >= 4 * src_w * src_h
    &&& 4 * dst_w * dst_h <= usize::MAX
}

proof fn lemma_scaled_index(src_w: int, src_h: int, dst_w: int, dst_h: int, k: int)
    requires
        src_w > 0,
        src_h > 0,
        dst_w > 0,
        dst_h > 0,
        0 <= k < 4 * dst_w * dst_h,
    ensures
        0 <= k / (4 * dst_w) < dst_h,
        0 <= (k % (4 * dst_w)) / 4 < dst_w,
        0 <= (k / (4 * dst_w)) * src_h / dst_h < src_h,
        0 <= ((k % (4 * dst_w)) / 4) * src_w / dst_w < src_w,
        0 <= ((k / (4 * dst_w)) * src_h / dst_h) * (4 * src_w) + (((k % (4 * dst_w)) / 4) * src_w / dst_w) * 4 + k % 4
            < 4 * src_w * src_h,
{
    let s = 4 * dst_w;
    let y = k / s;
    let x = (k % s) / 4;
    assert(0 <= y < dst_h) by (nonlinear_arith)
        requires
            s == 4 * dst_w,
            dst_w > 0,
            0 <= k < s * dst_h,
            y == k / s,
    ;
    assert(0 <= x < dst_w) by (nonlinear_arith)
        requires
            s == 4 * dst_w,
            dst_w > 0,
            0 <= k,
            x == (k % s) / 4,
    ;
    let sy = y * src_h / dst_h;
    let sx = x * src_w / dst_w;
    assert(0 <= sy < src_h) by (nonlinear_arith)
        requires
            0 <= y < dst_h,
            src_h > 0,
            sy == y * src_h / dst_h,
    ;
    assert(0 <= sx < src_w) by (nonlinear_arith)
        requires
            0 <= x < dst_w,
            src_w > 0,
            sx == x * src_w / dst_w,
    ;
    assert(0 <= sy * (4 * src_w) + sx * 4 + k % 4 < 4 * src_w * src_h) by (nonlinear_arith)
        requires
            0 <= sy < src_h,
            0 <= sx < src_w,
            0 <= k % 4 < 4,
    ;
}

/// Scales an RGBA image by nearest neighbour into `dst`, which is resized to the scaled
/// image; `None`, with `dst` untouched, when a size is zero, the source is too short or
/// the scaled image would not fit in memory.
pub fn scale_rgba_nearest(src: &[u8], src_w: u32, src_h: u32, dst_w: u32, dst_h: u32, dst: &mut Vec<u8>) -> (r:
    Option<()>)
    ensures
        r is Some <==> can_scale(src@.len() as int, src_w as int, src_h as int, dst_w as int, dst_h as int),
        r is None ==> final(dst)@ == old(dst)@,
        r is Some ==> {
            &&& final(dst)@.len() == 4 * dst_w * dst_h
            &&& forall|k: int|
                0 <= k < final(dst)@.len() ==> #[trigger] final(dst)@[k] == scaled_byte(
                    src@,
                    src_w as int,
                    src_h as int,
                    dst_w as int,
                    dst_h as int,
                    k,
                )
        },
{
    if src_w == 0 || src_h == 0 || dst_w == 0 || dst_h == 0 {
        return None;
    }
    let sw = src_w as u64;
    let sh = src_h as u64;
    let dw = dst_w as u64;
    let dh = dst_h as u64;
    assert(4 * sw * sh <= 4 * 0xffff_ffffu64 * 0xffff_ffffu64) by (nonlinear_arith)
        requires
            sw <= 0xffff_ffff,
            sh <= 0xffff_ffff,
    ;
    assert(4 * dw * dh <= 4 * 0xffff_ffffu64 * 0xffff_ffffu64) by (nonlinear_arith)
        requires
            dw <= 0xffff_ffff,
            dh <= 0xffff_ffff,
    ;
    let src_len: u128 = 4 * (sw as u128) * (sh as u128);
    if (src.len() as u128) < src_len {
        return None;
    }
    let dst_len: u128 = 4 * (dw as u128) * (dh as u128);
    if dst_len > usize::MAX as u128 {
        return None;
    }
    let n = dst_len as usize;
    dst.resize(n, 0u8);
    assert(4 * sw <= src@.len()) by (nonlinear_arith)
        requires
            sh >= 1,
            4 * sw * sh <= src@.len(),
    ;
    assert(4 * dw <= usize::MAX) by (nonlinear_arith)
        requires
            dh >= 1,
            4 * dw * dh <= usize::MAX,
    ;
    let src_stride = (4 * sw) as usize;
    let dst_stride = (4 * dw) as usize;
    assert(src_stride * (sh as usize) <= src@.len()) by (nonlinear_arith)
        requires
            src_stride == 4 * sw,
            4 * sw * sh <= src@.len(),
    ;
    let slen = src.len();
    let mut k: usize = 0;
    while k < n
        invariant
            slen == src@.len(),
            n == 4 * dst_w * dst_h,
            dst@.len() == n,
            k <= n,
            src_stride == 4 * src_w,
            dst_stride == 4 * dst_w,
            sw == src_w,
            sh == src_h,
            dw == dst_w,
            dh == dst_h,
            src_w > 0 && src_h > 0 && dst_w > 0 && dst_h > 0,
            src@.len() >= 4 * src_w * src_h,
            forall|j: int|
                0 <= j < k ==> #[trigger] dst@[j] == scaled_byte(src@, src_w as int, src_h as int, dst_w as int, dst_h as int, j),
        decreases n - k,
    {
        proof {
            lemma_scaled_index(src_w as int, src_h as int, dst_w as int, dst_h as int, k as int);
        }
        let y = (k / dst_stride) as u64;
        let x = ((k % dst_stride) / 4) as u64;
        let c = k % 4;
        assert(y < dh && x < dw);
        assert(y * sh <= 0xffff_ffffu64 * 0xffff_ffffu64) by (nonlinear_arith)
            requires
                y < dh,
                dh <= 0xffff_ffff,
                sh <= 0xffff_ffff,
        ;
        assert(x * sw <= 0xffff_ffffu64 * 0xffff_ffffu64) by (nonlinear_arith)
            requires
                x < dw,
                dw <= 0xffff_ffff,
                sw <= 0xffff_ffff,
        ;
        let sy = (y * sh / dh) as usize;
        let sx = (x * sw / dw) as usize;
        assert(sy * src_stride + sx * 4 + c < src@.len());
        assert(sy * src_stride <= usize::MAX && sx * 4 <= usize::MAX) by (nonlinear_arith)
            requires
                sy * src_stride + sx * 4 + c < src@.len(),
                src@.len() == slen,
                c >= 0,
                sy >= 0,
                sx >= 0,
                src_stride >= 0,
        ;
        let row = sy * src_stride;
        let si = row + sx * 4 + c;
        dst.set(k, src[si]);
        k = k + 1;
    }
    Some(())
}

/// The bytes a row of pixels takes in a frame of this format and width.
pub open spec fn row_bytes(f: RetroPixelFormat, w: int) -> int {
    match f {
        RetroPixelFormat::Xrgb8888 => 4 * w,
        RetroPixelFormat::Rgb565 => 2 * w,
        RetroPixelFormat::Rgb1555 => 2 * w,
        RetroPixelFormat::Unknown(_) => 0,
    }
}

/// A 5-bit channel widened to 8 bits, its top bits repeated below.
pub open spec fn widen5(v: int) -> int {
    v * 8 + v / 4
}

/// A 6-bit channel widened to 8 bits, its top bits repeated below.
pub open spec fn widen6(v: int) -> int {
    v * 4 + v / 16
}

/// Byte `k` of the RGBA image of a frame: for the pixel at row `y`, column `x` that it
/// belongs to, the red, green, blue or opaque alpha value of the source pixel, which starts
/// `y * pitch + x * bytes per pixel` bytes in.
pub open spec fn rgba_byte(f: RetroPixelFormat, data: Seq<u8>, w: int, pitch: int, k: int) -> int {
    let p = k / 4;
    let y = p / w;
    let x = p % w;
    let c = k % 4;
    let base = y * pitch;
    if c == 3 {
        255
    } else {
        match f {
            RetroPixelFormat::Xrgb8888 => data[base + 4 * x + (2 - c)] as int,
            RetroPixelFormat::Rgb565 => {
                let raw = data[base + 2 * x] + 256 * data[base + 2 * x + 1];
                if c == 0 {
                    widen5(raw / 2048)
                } else if c == 1 {
                    widen6((raw / 32) % 64)
                } else {
                    widen5(raw % 32)
                }
            },
            RetroPixelFormat::Rgb1555 => {
                let raw = data[base + 2 * x] + 256 * data[base + 2 * x + 1];
                if c == 0 {
                    widen5((raw / 1024) % 32)
                } else if c == 1 {
                    widen5((raw / 32) % 32)
                } else {
                    widen5(raw % 32)
                }
            },
            RetroPixelFormat::Unknown(_) => 0,
        }
    }
}

/// Whether a frame is refused before the output is sized: a zero size or pitch, fewer
/// bytes than `height` rows of `pitch`, or an image too large for memory.
pub open spec fn frame_refused_early(data_len: int, w: int, h: int, pitch: int) -> bool {
    ||| pitch == 0 || w == 0 || h == 0
    ||| h * pitch > usize::MAX
    ||| data_len < h * pitch
    ||| 4 * w * h > usize::MAX
}

/// The leading rows of a frame that lie inside its data, which are converted before a
/// row that runs past it stops the conversion (none for an unknown format).
pub open spec fn rows_in_data(f: RetroPixelFormat, data_len: int, w: int, h: int, pitch: int) -> int {
    if f is Unknown || row_bytes(f, w) > data_len {
        0
    } else {
        min_int(h, (data_len - row_bytes(f, w)) / pitch + 1)
    }
}

/// Whether a frame converts: not refused early, of a known format, and with its last row
/// inside the data.
pub open spec fn frame_converts(f: RetroPixelFormat, data_len: int, w: int, h: int, pitch: int) -> bool {
    &&& !frame_refused_early(data_len, w, h, pitch)
    &&& !(f is Unknown)
    &&& (h - 1) * pitch + row_bytes(f, w) <= data_len
}

fn widen5_u8(v: u32) -> (r: u8)
    requires
        v < 32,
    ensures
        r == widen5(v as int),
{
    (v * 8 + v / 4) as u8
}

fn widen6_u8(v: u32) -> (r: u8)
    requires
        v < 64,
    ensures
        r == widen6(v as int),
{
    (v * 4 + v / 16) as u8
}

/// Converts a frame to RGBA in `out`, resized to four bytes per pixel; `None` when the frame
/// is refused (with `out` untouched when refused before sizing), its format is unknown, or
/// its rows do not fit in its data. Rows are converted in order until one runs past the
/// data; the rest of `out` keeps what resizing left there.
pub fn fill_rgba_buffer_from_frame(frame: &VideoFrame, out: &mut Vec<u8>) -> (r: Option<()>)
    ensures
        r is Some <==> frame_converts(
            frame.spec_format(),
            frame.spec_data().len() as int,
            frame.spec_width() as int,
            frame.spec_height() as int,
            frame.spec_pitch() as int,
        ),
        frame_refused_early(
            frame.spec_data().len() as int,
            frame.spec_width() as int,
            frame.spec_height() as int,
            frame.spec_pitch() as int,
        ) ==> final(out)@ == old(out)@,
        !frame_refused_early(
            frame.spec_data().len() as int,
            frame.spec_width() as int,
            frame.spec_height() as int,
            frame.spec_pitch() as int,
        ) ==> final(out)@.len() == 4 * frame.spec_width() * frame.spec_height() && forall|k: int|
            0 <= k < final(out)@.len() ==> #[trigger] final(out)@[k] as int == (if k < 4 * frame.spec_width()
                * rows_in_data(
                frame.spec_format(),
                frame.spec_data().len() as int,
                frame.spec_width() as int,
                frame.spec_height() as int,
                frame.spec_pitch() as int,
            ) {
                rgba_byte(
                    frame.spec_format(),
                    frame.spec_data(),
                    frame.spec_width() as int,
                    frame.spec_pitch() as int,
                    k,
                )
            } else if k < old(out)@.len() {
                old(out)@[k] as int
            } else {
                0
            }),
        r is Some ==> forall|k: int|
            0 <= k < final(out)@.len() ==> #[trigger] final(out)@[k] as int == rgba_byte(
                frame.spec_format(),
                frame.spec_data(),
                frame.spec_width() as int,
                frame.spec_pitch() as int,
                k,
            ),
{
    let w = frame.width() as usize;
    let h = frame.height() as usize;
    let pitch = frame.pitch();
    let fmt = frame.format();
    if pitch == 0 || w == 0 || h == 0 {
        return None;
    }
    let data = frame.data();
    let frame_len = data.len();
    let min_expected = match h.checked_mul(pitch) {
        Some(v) => v,
        None => return None,
    };
    if frame_len < min_expected {
        return None;
    }
    let wh = match w.checked_mul(h) {
        Some(v) => v,
        None => {
            assert(4 * w * h > usize::MAX) by (nonlinear_arith)
                requires
                    w * h > usize::MAX,
            ;
            return None;
        },
    };
    assert(4 * w * h == wh * 4) by (nonlinear_arith)
        requires
            wh == w * h,
    ;
    let n = match wh.checked_mul(4) {
        Some(v) => v,
        None => return None,
    };
    out.resize(n, 0u8);
    let ghost resized = out@;
    assert forall|j: int| 0 <= j < n implies #[trigger] resized[j] as int == (if j < old(out)@.len() {
        old(out)@[j] as int
    } else {
        0
    }) by {
        if j < old(out)@.len() && n <= old(out)@.len() {
            assert(resized[j] == old(out)@.subrange(0, n as int)[j]);
        } else if j < old(out)@.len() {
            assert(resized[j] == resized.subrange(0, old(out)@.len() as int)[j]);
        }
    }
    let bpp: usize = match fmt {
        RetroPixelFormat::Xrgb8888 => 4,
        RetroPixelFormat::Rgb565 => 2,
        RetroPixelFormat::Rgb1555 => 2,
        RetroPixelFormat::Unknown(_) => return None,
    };
    assert(w * bpp <= usize::MAX) by (nonlinear_arith)
        requires
            w * h * 4 <= usize::MAX,
            h >= 1,
            bpp <= 4,
    ;
    let rb = w * bpp;
    let rows: usize = if rb > frame_len {
        0
    } else {
        let q = (frame_len - rb) / pitch + 1;
        if q < h {
            q
        } else {
            h
        }
    };
    assert(rows >= 1 ==> (rows - 1) * pitch + rb <= frame_len) by (nonlinear_arith)
        requires
            rows <= (frame_len - rb) as int / pitch as int + 1 || rows == 0,
            rb <= frame_len || rows == 0,
            pitch >= 1,
    ;
    assert(4 * w * rows <= 4 * w * h && 4 * w <= 4 * w * h) by (nonlinear_arith)
        requires
            rows <= h,
            h >= 1,
    ;
    let m = 4 * w * rows;
    let mut k: usize = 0;
    while k < m
        invariant
            n == 4 * w * h,
            m == 4 * w * rows,
            m <= n,
            rows <= h,
            rows >= 1 ==> (rows - 1) * pitch + rb <= frame_len,
            out@.len() == n,
            k <= m,
            resized.len() == n,
            forall|j: int| k <= j < n ==> #[trigger] out@[j] == resized[j],
            w == frame.spec_width(),
            h == frame.spec_height(),
            w >= 1 && h >= 1,
            pitch == frame.spec_pitch(),
            fmt == frame.spec_format(),
            data@ == frame.spec_data(),
            frame_len == data@.len(),
            rb == row_bytes(fmt, w as int),
            bpp == 2 || bpp == 4,
            (bpp == 4) == (fmt is Xrgb8888),
            !(fmt is Unknown),
            forall|j: int|
                0 <= j < k ==> #[trigger] out@[j] as int == rgba_byte(fmt, data@, w as int, pitch as int, j),
        decreases m - k,
    {
        let p = k / 4;
        let y = p / w;
        let x = p % w;
        let c = k % 4;
        assert(y < rows) by (nonlinear_arith)
            requires
                p == k / 4,
                y == p / w,
                k < 4 * w * rows,
                w >= 1,
        ;
        assert(y * pitch <= (rows - 1) * pitch) by (nonlinear_arith)
            requires
                y < rows,
                pitch >= 0,
        ;
        assert(y * pitch + bpp * x + bpp <= (rows - 1) * pitch + rb) by (nonlinear_arith)
            requires
                y * pitch <= (rows - 1) * pitch,
                x < w,
                rb == w * bpp,
        ;
        let base = y * pitch;
        let v: u8 = if c == 3 {
            255
        } else if bpp == 4 {
            data[base + 4 * x + (2 - c)]
        } else {
            let lo = data[base + 2 * x] as u32;
            let hi = data[base + 2 * x + 1] as u32;
            let raw = lo + 256 * hi;
            match fmt {
                RetroPixelFormat::Rgb565 => if c == 0 {
                    widen5_u8(raw / 2048)
                } else if c == 1 {
                    widen6_u8((raw / 32) % 64)
                } else {
                    widen5_u8(raw % 32)
                },
                _ => if c == 0 {
                    widen5_u8((raw / 1024) % 32)
                } else if c == 1 {
                    widen5_u8((raw / 32) % 32)
                } else {
                    widen5_u8(raw % 32)
                },
            }
        };
        out.set(k, v);
        k = k + 1;
    }
    proof {
        assert((rows == h) == ((h - 1) * pitch + rb <= frame_len)) by (nonlinear_arith)
            requires
                pitch >= 1,
                h >= 1,
                rows == (if rb > frame_len {
                    0
                } else if (frame_len - rb) as int / pitch as int + 1 < h {
                    (frame_len - rb) as int / pitch as int + 1
                } else {
                    h as int
                }),
        ;
    }
    if rows < h {
        return None;
    }
    Some(())
}

/// Restoring undoes a degradation that stays clear of the floor and the ceiling.
pub proof fn law_restore_undoes_degrade(p: VideoProfile)
    requires
        profile_in_range(p),
        p.target_width >= VIDEO_WIDTH_LIMIT_MIN + VIDEO_WIDTH_LIMIT_STEP,
        p.target_height >= VIDEO_HEIGHT_LIMIT_MIN + VIDEO_HEIGHT_LIMIT_STEP,
        p.frame_interval_ms + VIDEO_FRAME_INTERVAL_STEP_MS <= VIDEO_FRAME_INTERVAL_MS_MAX,
    ensures
        restored(degraded(p)) == p,
{
}

/// Degrading and restoring keep a profile between the floor and the ceiling, and
/// degrading the lowest profile leaves it as it is.
pub proof fn law_profile_steps_stay_in_range(p: VideoProfile)
    requires
        profile_in_range(p),
    ensures
        profile_in_range(degraded(p)),
        profile_in_range(restored(p)),
        (p.target_width == VIDEO_WIDTH_LIMIT_MIN && p.target_height == VIDEO_HEIGHT_LIMIT_MIN
            && p.frame_interval_ms == VIDEO_FRAME_INTERVAL_MS_MAX) ==> degraded(p) == p,
{
}

} // verus!
