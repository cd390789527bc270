//! The worker's video encoding: frames are converted to RGBA, scaled when the profile asks
//! for a smaller picture, and encoded to H.264 by OpenH264, with the encoder rebuilt when
//! the picture size changes or it keeps producing nothing. The pacing decisions are those
//! of [`FramePacing`]; what OpenH264 produces for a picture is up to it.
use vstd::prelude::*;

use openh264::encoder::{BitRate, Encoder, EncoderConfig};
use openh264::formats::{RgbaSliceU8, YUVBuffer};
use openh264::OpenH264API;

use crate::libretro::{RetroPixelFormat, VideoFrame};
use crate::video::{
    can_scale, fill_rgba_buffer_from_frame, frame_converts, frame_refused_early, profile_in_range, rgba_byte,
    row_bytes, rows_in_data, scale_rgba_nearest, scaled_byte, VIDEO_HEIGHT_LIMIT, VIDEO_WIDTH_LIMIT,
};
use crate::video_pacing::{
    after_requests, activated, due_interval, finished, initial_pacing, planned, EncodeOutcome, FramePacing, FramePlan,
    FrameSend,
};

verus! {

#[verifier::external_type_specification]
#[verifier::external_body]
pub struct ExEncoder(Encoder);

#[verifier::external_type_specification]
#[verifier::external_body]
pub struct ExEncoderConfig(EncoderConfig);

/// Bits per pixel and frame the bitrate is sized by.
pub const VIDEO_ENCODER_BITS_PER_PIXEL_PER_FRAME: u64 = 8;
/// The lowest bitrate, in bits per second.
pub const VIDEO_ENCODER_MIN_BITRATE_BPS: u32 = 1000000;
/// The highest bitrate, in bits per second.
pub const VIDEO_ENCODER_MAX_BITRATE_BPS: u32 = 4000000;
/// The smallest payload passed on; even an empty P-frame has a few bytes, and every payload
/// is passed on to keep the RTP pacing.
pub const VIDEO_ENCODER_MIN_PAYLOAD_BYTES: usize = 1;
/// Empty encodes in a row after which the encoder is rebuilt.
pub const VIDEO_ENCODER_EMPTY_RETRY_THRESHOLD: u32 = 360000;
/// Frames to wait after a rebuild that did not help.
pub const VIDEO_ENCODER_EMPTY_RECOVERY_COOLDOWN_FRAMES: u32 = 0;

/// Builds an OpenH264 encoder (`Encoder::with_api_config` with the bundled OpenH264) from
/// the base configuration with the given target bitrate. OpenH264 may refuse to start;
/// nothing is stated of the outcome.
#[verifier::external_body]
fn open_encoder(config: &EncoderConfig, bitrate_bps: u32) -> (r: Option<Encoder>) {
    Encoder::with_api_config(OpenH264API::from_source(), config.bitrate(BitRate::from_bps(bitrate_bps))).ok()
}

/// Encodes an RGBA picture with the encoder: converts it to YUV
/// (`YUVBuffer::from_rgb_source` over an `RgbaSliceU8`, which panics unless the slice holds
/// exactly the picture and both sides are even), encodes that (`Encoder::encode`) and hands
/// back the bitstream's bytes (`EncodedBitStream::write_vec`), or `None` when OpenH264
/// reports an error. The contract records the call in the encoder's log: the picture, its
/// size and what came back. What OpenH264 makes of a picture depends on its state, so
/// nothing more is stated of the output.
#[verifier::external_body]
fn encode_rgba(enc: &mut SizedEncoder, rgba: &[u8], width: u32, height: u32) -> (r: Option<Vec<u8>>)
    requires
        rgba@.len() == 4 * width * height,
        width % 2 == 0,
        height % 2 == 0,
    ensures
        final(enc).fed() == old(enc).fed().push((rgba@, width, height, bytes_of(r))),
        final(enc).bitrate() == old(enc).bitrate(),
{
    let yuv = YUVBuffer::from_rgb_source(RgbaSliceU8::new(rgba, (width as usize, height as usize)));
    match enc.encoder.encode(&yuv) {
        Ok(bitstream) => {
            let mut out = Vec::new();
            bitstream.write_vec(&mut out);
            Some(out)
        },
        Err(_) => None,
    }
}

/// Asks the encoder to make the next picture a keyframe (`Encoder::force_intra_frame`).
#[verifier::external_body]
fn force_intra(encoder: &mut Encoder) {
    encoder.force_intra_frame();
}

/// A picture handed to the encoder: its RGBA bytes, its width and height, and the bytes the
/// encoder gave back for it, if any.
pub type FedPicture = (Seq<u8>, u32, u32, Option<Seq<u8>>);

/// The bytes of an optional buffer.
pub open spec fn bytes_of(r: Option<Vec<u8>>) -> Option<Seq<u8>> {
    match r {
        Some(v) => Some(v@),
        None => None,
    }
}

/// What is kept of an encoder's output: a payload of the smallest size or more.
pub open spec fn kept_payload(out: Option<Seq<u8>>) -> Option<Seq<u8>> {
    match out {
        Some(p) => if p.len() >= VIDEO_ENCODER_MIN_PAYLOAD_BYTES {
            Some(p)
        } else {
            None
        },
        None => None,
    }
}

/// An OpenH264 encoder, the target bitrate it was built with, and the log of the pictures
/// it has been handed (kept across rebuilds).
pub struct SizedEncoder {
    encoder: Encoder,
    bitrate_bps: u32,
    fed: Ghost<Seq<FedPicture>>,
}

impl SizedEncoder {
    /// The target bitrate the encoder was built with, in bits per second.
    pub closed spec fn bitrate(&self) -> u32 {
        self.bitrate_bps
    }

    /// The pictures handed to the encoder so far, oldest first, with what came back.
    pub closed spec fn fed(&self) -> Seq<FedPicture> {
        self.fed@
    }

    /// Takes over a freshly built encoder and its bitrate, keeping the log.
    fn install(&mut self, e: SizedEncoder)
        ensures
            final(self).bitrate() == e.bitrate(),
            final(self).fed() == old(self).fed(),
    {
        self.encoder = e.encoder;
        self.bitrate_bps = e.bitrate_bps;
    }
}

/// The bitrate for a picture size: eight bits per pixel and frame, between the lowest and
/// highest bitrate.
pub open spec fn bitrate_for(width: u32, height: u32) -> u32 {
    let b = width * height * 8;
    if b < VIDEO_ENCODER_MIN_BITRATE_BPS {
        VIDEO_ENCODER_MIN_BITRATE_BPS
    } else if b > VIDEO_ENCODER_MAX_BITRATE_BPS {
        VIDEO_ENCODER_MAX_BITRATE_BPS
    } else {
        b as u32
    }
}

/// The encoder bitrate for a picture size.
pub fn encoder_bitrate_bps(width: u32, height: u32) -> (b: u32)
    ensures
        b == bitrate_for(width, height),
{
    let w64 = width as u64;
    let h64 = height as u64;
    assert(w64 * h64 <= 0xffff_ffffu64 * 0xffff_ffffu64) by (nonlinear_arith)
        requires
            w64 <= 0xffff_ffff,
            h64 <= 0xffff_ffff,
    ;
    let wh = w64 * h64;
    if wh > (VIDEO_ENCODER_MAX_BITRATE_BPS as u64) / 8 {
        return VIDEO_ENCODER_MAX_BITRATE_BPS;
    }
    let b = wh * 8;
    if b < VIDEO_ENCODER_MIN_BITRATE_BPS as u64 {
        VIDEO_ENCODER_MIN_BITRATE_BPS
    } else {
        b as u32
    }
}

/// A new encoder sized for a picture; `None` for an empty picture or when OpenH264 does not
/// start.
pub fn new_encoder_for_dims(config: &EncoderConfig, width: u32, height: u32) -> (r: Option<SizedEncoder>)
    ensures
        width == 0 || height == 0 ==> r is None,
        r matches Some(e) ==> e.bitrate() == bitrate_for(width, height) && e.fed() == Seq::<FedPicture>::empty(),
{
    if width == 0 || height == 0 {
        return None;
    }
    let bitrate_bps = encoder_bitrate_bps(width, height);
    match open_encoder(config, bitrate_bps) {
        Some(encoder) => Some(SizedEncoder { encoder, bitrate_bps, fed: Ghost(Seq::empty()) }),
        None => None,
    }
}

/// Whether a frame converts to RGBA (see [`fill_rgba_buffer_from_frame`]).
pub fn frame_is_convertible(frame: &VideoFrame) -> (b: bool)
    ensures
        b == frame_converts(
            frame.spec_format(),
            frame.spec_data().len() as int,
            frame.spec_width() as int,
            frame.spec_height() as int,
            frame.spec_pitch() as int,
        ),
{
    let w = frame.width() as usize;
    let h = frame.height() as usize;
    let pitch = frame.pitch();
    if pitch == 0 || w == 0 || h == 0 {
        return false;
    }
    let hp = match h.checked_mul(pitch) {
        Some(v) => v,
        None => return false,
    };
    let len = frame.data().len();
    if len < hp {
        return false;
    }
    let wh = match w.checked_mul(h) {
        Some(v) => v,
        None => {
            assert(4 * w * h > usize::MAX) by (nonlinear_arith)
                requires
                    w * h > usize::MAX,
            ;
            return false;
        },
    };
    assert(4 * w * h == wh * 4) by (nonlinear_arith)
        requires
            wh == w * h,
    ;
    if wh.checked_mul(4).is_none() {
        return false;
    }
    let bpp: usize = match frame.format() {
        RetroPixelFormat::Xrgb8888 => 4,
        RetroPixelFormat::Rgb565 => 2,
        RetroPixelFormat::Rgb1555 => 2,
        RetroPixelFormat::Unknown(_) => return false,
    };
    assert(w * bpp <= usize::MAX) by (nonlinear_arith)
        requires
            w * h * 4 <= usize::MAX,
            h >= 1,
            bpp <= 4,
    ;
    let rb = w * bpp;
    assert((h - 1) * pitch <= h * pitch) by (nonlinear_arith)
        requires
            pitch >= 0,
            h >= 1,
    ;
    let last = (h - 1) * pitch;
    rb <= len - last
}

/// The encoder's bookkeeping between pictures: the size it was last built for, the empty
/// encodes in a row, and the frames left before another rebuild may be tried.
#[derive(Debug, Clone, Copy)]
pub struct EncodeRetry {
    pub last_encode_dims: Option<(u32, u32)>,
    pub empty_streak: u32,
    pub empty_recovery_cooldown_frames: u32,
}

/// `a + 1`, or the largest `u32`.
pub open spec fn inc_sat(a: u32) -> u32 {
    if a == u32::MAX {
        a
    } else {
        (a + 1) as u32
    }
}

/// The cooldown after one more frame: one less, down to 0.
pub open spec fn cooled(s: EncodeRetry) -> u32 {
    if s.empty_recovery_cooldown_frames > 0 {
        (s.empty_recovery_cooldown_frames - 1) as u32
    } else {
        0u32
    }
}

/// What one call of [`encode_frame_with_retry`] for a `w` by `h` picture does, given
/// whether the rebuild for a new picture size opened an encoder (`fresh`) and whether the
/// rebuild at the empty-streak threshold did (`again`); OpenH264 decides both. `after` is
/// the log `before` with one entry per encode, and `s2` the bookkeeping after.
/// - When the size changed and the rebuild failed, nothing is encoded.
/// - Otherwise the picture is encoded, and encoded once more when that first encode after
///   a rebuild gave nothing.
/// - A payload clears the streak and the cooldown.
/// - When nothing came out, the streak counts it. At the threshold, with no cooldown left,
///   the encoder is rebuilt; when that opened, the picture is encoded again.
pub open spec fn retry_feeds(
    s: EncodeRetry,
    w: u32,
    h: u32,
    before: Seq<FedPicture>,
    after: Seq<FedPicture>,
    s2: EncodeRetry,
    fresh: bool,
    again: bool,
) -> bool {
    let n = before.len() as int;
    let k = after.len() - n;
    let reset = s.last_encode_dims != Some((w, h));
    let here = Some((w, h));
    let c0 = cooled(s);
    if reset && !fresh {
        k == 0 && s2 == EncodeRetry { empty_recovery_cooldown_frames: c0, ..s }
    } else {
        let tries: int = if reset && kept_payload(after[n].3) is None {
            2
        } else {
            1
        };
        let st = inc_sat(
            if reset {
                0u32
            } else {
                s.empty_streak
            },
        );
        let done = EncodeRetry { last_encode_dims: here, empty_streak: 0, empty_recovery_cooldown_frames: 0 };
        if kept_payload(after[n + tries - 1].3) is Some {
            k == tries && s2 == done
        } else if st >= VIDEO_ENCODER_EMPTY_RETRY_THRESHOLD && c0 == 0 {
            if again {
                k == tries + 1 && s2 == (if kept_payload(after[n + tries].3) is Some {
                    done
                } else {
                    EncodeRetry {
                        last_encode_dims: here,
                        empty_streak: 1,
                        empty_recovery_cooldown_frames: VIDEO_ENCODER_EMPTY_RECOVERY_COOLDOWN_FRAMES,
                    }
                })
            } else {
                k == tries && s2 == EncodeRetry {
                    last_encode_dims: here,
                    empty_streak: st,
                    empty_recovery_cooldown_frames: VIDEO_ENCODER_EMPTY_RECOVERY_COOLDOWN_FRAMES,
                }
            }
        } else {
            k == tries && s2 == EncodeRetry { last_encode_dims: here, empty_streak: st, empty_recovery_cooldown_frames: c0 }
        }
    }
}

/// One call of [`encode_frame_with_retry`] for the picture `pic` at `w` by `h`, for some
/// outcome of its encoder rebuilds: see [`retry_feeds`].
pub open spec fn retry_run(
    s: EncodeRetry,
    w: u32,
    h: u32,
    pic: Seq<u8>,
    before: Seq<FedPicture>,
    after: Seq<FedPicture>,
    s2: EncodeRetry,
) -> bool {
    &&& fed_more(before, after, pic, w, h)
    &&& exists|fresh: bool, again: bool| #[trigger] retry_feeds(s, w, h, before, after, s2, fresh, again)
}

/// `after` is the log `before` with more pictures fed, each of them `pic` at `w` by `h`.
pub open spec fn fed_more(before: Seq<FedPicture>, after: Seq<FedPicture>, pic: Seq<u8>, w: u32, h: u32) -> bool {
    &&& before.len() <= after.len()
    &&& after.subrange(0, before.len() as int) == before
    &&& forall|i: int| before.len() <= i < after.len() ==> (#[trigger] after[i]).0 == pic && after[i].1 == w && after[i].2 == h
}

/// Whether the encodes that took the log from `before` to `after` gave `r`: the last one's
/// output when it is kept (`None` when there was none), every earlier one having given
/// nothing that is kept.
pub open spec fn encodes_gave(before: Seq<FedPicture>, after: Seq<FedPicture>, r: Option<Seq<u8>>) -> bool {
    &&& r == (if after.len() > before.len() {
        kept_payload(after.last().3)
    } else {
        None
    })
    &&& forall|i: int| before.len() <= i < after.len() - 1 ==> kept_payload((#[trigger] after[i]).3) is None
}

/// One encode of an RGBA picture: the encoder's output when it has the smallest payload
/// size or more, else `None`.
fn encode_once(encoder: &mut SizedEncoder, rgba: &[u8], width: u32, height: u32) -> (r: Option<Vec<u8>>)
    requires
        rgba@.len() == 4 * width * height,
        width % 2 == 0,
        height % 2 == 0,
    ensures
        final(encoder).fed() == old(encoder).fed().push((rgba@, width, height, final(encoder).fed().last().3)),
        bytes_of(r) == kept_payload(final(encoder).fed().last().3),
        final(encoder).bitrate() == old(encoder).bitrate(),
{
    match encode_rgba(encoder, rgba, width, height) {
        Some(out) => if out.len() >= VIDEO_ENCODER_MIN_PAYLOAD_BYTES {
            Some(out)
        } else {
            None
        },
        None => None,
    }
}

/// Feeding one more picture `pic` at `w` by `h` keeps what [`fed_more`] and
/// [`encodes_gave`] say of the earlier encodes, when those gave nothing.
proof fn lemma_feed_one(
    before: Seq<FedPicture>,
    mid: Seq<FedPicture>,
    pic: Seq<u8>,
    w: u32,
    h: u32,
    out: Option<Seq<u8>>,
)
    requires
        fed_more(before, mid, pic, w, h),
        encodes_gave(before, mid, None),
    ensures
        fed_more(before, mid.push((pic, w, h, out)), pic, w, h),
        encodes_gave(before, mid.push((pic, w, h, out)), kept_payload(out)),
{
    let after = mid.push((pic, w, h, out));
    assert(after.subrange(0, before.len() as int) == mid.subrange(0, before.len() as int));
    assert forall|i: int| before.len() <= i < after.len() - 1 implies kept_payload((#[trigger] after[i]).3) is None by {
        if i < mid.len() - 1 {
            assert(after[i] == mid[i]);
        } else {
            assert(i == mid.len() - 1);
            assert(mid.len() > before.len());
        }
    }
}

/// Encodes an RGBA picture, rebuilding the encoder when the picture size changed (and
/// trying once more when that first encode gives nothing), or when it has given nothing
/// too many times in a row. Every picture handed to the encoder is `rgba`, and the payload
/// is the output of the last encode when that is kept.
pub fn encode_frame_with_retry(
    config: &EncoderConfig,
    encoder: &mut SizedEncoder,
    width: u32,
    height: u32,
    rgba: &[u8],
    retry: &mut EncodeRetry,
) -> (r: Option<Vec<u8>>)
    requires
        rgba@.len() == 4 * width * height,
        width % 2 == 0,
        height % 2 == 0,
    ensures
        r matches Some(p) ==> p@.len() >= VIDEO_ENCODER_MIN_PAYLOAD_BYTES,
        final(encoder).bitrate() == old(encoder).bitrate() || (final(encoder).bitrate() == bitrate_for(width, height)
            && final(retry).last_encode_dims == Some((width, height))),
        retry_run(*old(retry), width, height, rgba@, old(encoder).fed(), final(encoder).fed(), *final(retry)),
        encodes_gave(old(encoder).fed(), final(encoder).fed(), bytes_of(r)),
        r matches Some(p) ==> final(encoder).fed().len() > old(encoder).fed().len() && final(encoder).fed().last() == (
        rgba@, width, height, Some(p@)),
        (width == 0 || height == 0) && old(retry).last_encode_dims != Some((width, height)) ==> r is None
            && final(encoder).fed() == old(encoder).fed(),
{
    let ghost f0 = encoder.fed();
    let ghost s0 = *retry;
    assert(f0.subrange(0, f0.len() as int) == f0);
    if retry.empty_recovery_cooldown_frames > 0 {
        retry.empty_recovery_cooldown_frames = retry.empty_recovery_cooldown_frames - 1;
    }
    let reset = match retry.last_encode_dims {
        Some((w, h)) => w != width || h != height,
        None => true,
    };
    let had_reset = if reset {
        match new_encoder_for_dims(config, width, height) {
            Some(e) => {
                encoder.install(e);
                retry.last_encode_dims = Some((width, height));
                retry.empty_streak = 0;
                true
            },
            None => {
                assert(retry_feeds(s0, width, height, f0, encoder.fed(), *retry, false, false));
                return None;
            },
        }
    } else {
        false
    };
    let ghost f1 = encoder.fed();
    let mut output = encode_once(encoder, rgba, width, height);
    proof {
        lemma_feed_one(f0, f1, rgba@, width, height, encoder.fed().last().3);
    }
    if output.is_none() && had_reset {
        let ghost f2 = encoder.fed();
        output = encode_once(encoder, rgba, width, height);
        proof {
            lemma_feed_one(f0, f2, rgba@, width, height, encoder.fed().last().3);
        }
    }
    let ghost f_tries = encoder.fed();
    if let Some(out) = output {
        retry.empty_streak = 0;
        retry.empty_recovery_cooldown_frames = 0;
        assert(retry_feeds(s0, width, height, f0, encoder.fed(), *retry, true, false));
        return Some(out);
    }
    retry.empty_streak = retry.empty_streak.saturating_add(1);
    if retry.empty_streak >= VIDEO_ENCODER_EMPTY_RETRY_THRESHOLD && retry.empty_recovery_cooldown_frames == 0 {
        match new_encoder_for_dims(config, width, height) {
            Some(e) => {
                encoder.install(e);
                retry.last_encode_dims = Some((width, height));
                let ghost f3 = encoder.fed();
                let last = encode_once(encoder, rgba, width, height);
                proof {
                    lemma_feed_one(f0, f3, rgba@, width, height, encoder.fed().last().3);
                }
                if let Some(out) = last {
                    retry.empty_streak = 0;
                    retry.empty_recovery_cooldown_frames = 0;
                    assert(retry_feeds(s0, width, height, f0, encoder.fed(), *retry, true, true));
                    return Some(out);
                }
                retry.empty_streak = 1;
                retry.empty_recovery_cooldown_frames = VIDEO_ENCODER_EMPTY_RECOVERY_COOLDOWN_FRAMES;
                assert(retry_feeds(s0, width, height, f0, encoder.fed(), *retry, true, true));
            },
            None => {
                retry.empty_recovery_cooldown_frames = VIDEO_ENCODER_EMPTY_RECOVERY_COOLDOWN_FRAMES;
                assert(retry_feeds(s0, width, height, f0, encoder.fed(), *retry, true, false));
            },
        }
    } else {
        assert(retry_feeds(s0, width, height, f0, encoder.fed(), *retry, true, false));
    }
    None
}

/// What converting `frame` to RGBA does to a buffer that held `old` and then holds `new`
/// (see [`fill_rgba_buffer_from_frame`]).
pub open spec fn rgba_filled(frame: VideoFrame, old: Seq<u8>, new: Seq<u8>) -> bool {
    let w = frame.spec_width() as int;
    let h = frame.spec_height() as int;
    let pitch = frame.spec_pitch() as int;
    let len = frame.spec_data().len() as int;
    &&& frame_refused_early(len, w, h, pitch) ==> new == old
    &&& !frame_refused_early(len, w, h, pitch) ==> new.len() == 4 * w * h && forall|k: int|
        0 <= k < new.len() ==> #[trigger] new[k] as int == (if k < 4 * w * rows_in_data(
            frame.spec_format(),
            len,
            w,
            h,
            pitch,
        ) {
            rgba_byte(frame.spec_format(), frame.spec_data(), w, pitch, k)
        } else if k < old.len() {
            old[k] as int
        } else {
            0
        })
}

/// The encodes of one frame, taking the bookkeeping from `s` to `s2` and the encoder's log
/// from `fed0` to `fed1`, and what came out (`None`, or whether the payload is the scaled
/// picture). When the scaled picture `scaled` (`tw` by `th`) is tried, it goes through
/// [`encode_frame_with_retry`] first, and the source picture `rgba` (`w` by `h`) only when
/// that gave nothing; otherwise the source picture goes through it.
pub open spec fn frame_encodes(
    s: EncodeRetry,
    s2: EncodeRetry,
    fed0: Seq<FedPicture>,
    fed1: Seq<FedPicture>,
    rgba: Seq<u8>,
    w: u32,
    h: u32,
    scaled: Seq<u8>,
    tw: u32,
    th: u32,
    try_scaled: bool,
    got: Option<bool>,
) -> bool {
    if try_scaled {
        ||| got == Some(true) && retry_run(s, tw, th, scaled, fed0, fed1, s2)
        ||| got != Some(true) && exists|mid: EncodeRetry, fm: Seq<FedPicture>|
            #![trigger retry_run(s, tw, th, scaled, fed0, fm, mid)]
            retry_run(s, tw, th, scaled, fed0, fm, mid) && encodes_gave(fed0, fm, None) && retry_run(
                mid,
                w,
                h,
                rgba,
                fm,
                fed1,
                s2,
            )
    } else {
        got != Some(true) && retry_run(s, w, h, rgba, fed0, fed1, s2)
    }
}

/// What building a frame's payload does, with `r` the payload's bytes and whether it is
/// the scaled picture: the RGBA buffer goes from `rgba0` to `rgba1` by converting the frame,
/// the scaled buffer from `scaled0` to `scaled1` by scaling that picture to `tw` by `th`
/// when scaling is tried, the bookkeeping goes from `s` to `s2` by the frame's encodes, and
/// the encoder's log from `fed0` to `fed1` by one entry for each picture handed to it,
/// each of them the RGBA or the scaled picture. The payload is what the encoder gave for
/// the last of them, and nothing earlier gave a payload.
pub open spec fn payload_built(
    frame: VideoFrame,
    tw: u32,
    th: u32,
    allow_scaled: bool,
    s: EncodeRetry,
    s2: EncodeRetry,
    rgba0: Seq<u8>,
    rgba1: Seq<u8>,
    scaled0: Seq<u8>,
    scaled1: Seq<u8>,
    fed0: Seq<FedPicture>,
    fed1: Seq<FedPicture>,
    r: Option<(Seq<u8>, bool)>,
) -> bool {
    let w = frame.spec_width();
    let h = frame.spec_height();
    let converts = frame_converts(
        frame.spec_format(),
        frame.spec_data().len() as int,
        w as int,
        h as int,
        frame.spec_pitch() as int,
    );
    let try_scaled = allow_scaled && (tw != w || th != h) && can_scale(4 * w * h, w as int, h as int, tw as int, th as int);
    &&& rgba_filled(frame, rgba0, rgba1)
    &&& !converts ==> r is None && s2 == s && scaled1 == scaled0 && fed1 == fed0
    &&& converts ==> {
        &&& frame_encodes(
            s,
            s2,
            fed0,
            fed1,
            rgba1,
            w,
            h,
            scaled1,
            tw,
            th,
            try_scaled,
            match r {
                Some((_, scaled)) => Some(scaled),
                None => None,
            },
        )
        &&& try_scaled ==> scaled1.len() == 4 * tw * th && forall|k: int|
            0 <= k < scaled1.len() ==> #[trigger] scaled1[k] == scaled_byte(rgba1, w as int, h as int, tw as int, th as int, k)
        &&& !try_scaled ==> scaled1 == scaled0
    }
    &&& r matches Some((p, scaled)) ==> p.len() >= VIDEO_ENCODER_MIN_PAYLOAD_BYTES && (scaled ==> allow_scaled && (tw
        != w || th != h))
    &&& fed0.len() <= fed1.len()
    &&& fed1.subrange(0, fed0.len() as int) == fed0
    &&& forall|i: int|
        fed0.len() <= i < fed1.len() ==> ((#[trigger] fed1[i]).0 == scaled1 && fed1[i].1 == tw && fed1[i].2 == th)
            || (fed1[i].0 == rgba1 && fed1[i].1 == w && fed1[i].2 == h)
    &&& forall|i: int|
        fed0.len() <= i < fed1.len() && (r is None || i < fed1.len() - 1) ==> kept_payload((#[trigger] fed1[i]).3)
            is None
    &&& r matches Some((p, true)) ==> fed1.len() > fed0.len() && fed1.last() == (scaled1, tw, th, Some(p))
    &&& r matches Some((p, false)) ==> fed1.len() > fed0.len() && fed1.last() == (rgba1, w, h, Some(p))
}

/// The bytes of an optional payload and whether it is the scaled picture.
pub open spec fn payload_view(r: Option<(Vec<u8>, bool)>) -> Option<(Seq<u8>, bool)> {
    match r {
        Some((p, scaled)) => Some((p@, scaled)),
        None => None,
    }
}

/// Two runs of encodes in turn, the first of `pic1` at `w1` by `h1` giving nothing and the
/// second of `pic2` at `w2` by `h2` giving `r`: each picture fed is one of the two, and only
/// the last encode may have given a payload.
proof fn lemma_fed_in_turn(
    f0: Seq<FedPicture>,
    fm: Seq<FedPicture>,
    f2: Seq<FedPicture>,
    pic1: Seq<u8>,
    w1: u32,
    h1: u32,
    pic2: Seq<u8>,
    w2: u32,
    h2: u32,
    r: Option<Seq<u8>>,
)
    requires
        fed_more(f0, fm, pic1, w1, h1),
        encodes_gave(f0, fm, None),
        fed_more(fm, f2, pic2, w2, h2),
        encodes_gave(fm, f2, r),
    ensures
        f0.len() <= f2.len(),
        f2.subrange(0, f0.len() as int) == f0,
        forall|i: int|
            f0.len() <= i < f2.len() ==> ((#[trigger] f2[i]).0 == pic1 && f2[i].1 == w1 && f2[i].2 == h1) || (f2[i].0
                == pic2 && f2[i].1 == w2 && f2[i].2 == h2),
        forall|i: int| f0.len() <= i < f2.len() && (r is None || i < f2.len() - 1) ==> kept_payload((#[trigger] f2[i]).3) is None,
{
    assert(f2.subrange(0, f0.len() as int) == fm.subrange(0, f0.len() as int)) by {
        assert forall|j: int| 0 <= j < f0.len() implies f2.subrange(0, f0.len() as int)[j] == fm.subrange(0, f0.len() as int)[j] by {
            assert(f2[j] == f2.subrange(0, fm.len() as int)[j]);
        }
    }
    assert forall|i: int| f0.len() <= i < f2.len() implies ((#[trigger] f2[i]).0 == pic1 && f2[i].1 == w1 && f2[i].2
        == h1) || (f2[i].0 == pic2 && f2[i].1 == w2 && f2[i].2 == h2) by {
        if i < fm.len() {
            assert(f2[i] == f2.subrange(0, fm.len() as int)[i]);
            assert(fm[i].0 == pic1);
        }
    }
    assert forall|i: int| f0.len() <= i < f2.len() && (r is None || i < f2.len() - 1) implies kept_payload(
        (#[trigger] f2[i]).3,
    ) is None by {
        if i < fm.len() {
            assert(f2[i] == f2.subrange(0, fm.len() as int)[i]);
            if i == fm.len() - 1 {
                assert(fm.len() > f0.len());
            } else {
                assert(kept_payload(fm[i].3) is None);
            }
        }
    }
}

/// Encodes a frame: converted to RGBA, scaled to `target_w` by `target_h` when scaling is
/// allowed and the size differs (falling back to the source picture when that gives
/// nothing), and encoded. Hands back the payload and whether it is the scaled picture;
/// `None` for an empty or unconvertible frame, or when nothing came out. The RGBA picture
/// is left in `rgba_scratch`, the scaled one in `scaled_scratch`, and the payload is what
/// the encoder gave for the last of them it was handed.
pub fn build_video_payload(
    config: &EncoderConfig,
    encoder: &mut SizedEncoder,
    retry: &mut EncodeRetry,
    frame: &VideoFrame,
    target_w: u32,
    target_h: u32,
    allow_scaled: bool,
    rgba_scratch: &mut Vec<u8>,
    scaled_scratch: &mut Vec<u8>,
) -> (r: Option<(Vec<u8>, bool)>)
    requires
        frame_converts(
            frame.spec_format(),
            frame.spec_data().len() as int,
            frame.spec_width() as int,
            frame.spec_height() as int,
            frame.spec_pitch() as int,
        ) ==> frame.spec_width() % 2 == 0 && frame.spec_height() % 2 == 0,
        target_w != frame.spec_width() || target_h != frame.spec_height() ==> target_w % 2 == 0 && target_h % 2
            == 0,
    ensures
        payload_built(
            *frame,
            target_w,
            target_h,
            allow_scaled,
            *old(retry),
            *final(retry),
            old(rgba_scratch)@,
            final(rgba_scratch)@,
            old(scaled_scratch)@,
            final(scaled_scratch)@,
            old(encoder).fed(),
            final(encoder).fed(),
            payload_view(r),
        ),
        final(encoder).bitrate() == old(encoder).bitrate() || final(encoder).bitrate() == bitrate_for(
            frame.spec_width(),
            frame.spec_height(),
        ) || final(encoder).bitrate() == bitrate_for(target_w, target_h),
{
    assert(encoder.fed().subrange(0, encoder.fed().len() as int) == encoder.fed());
    let width = frame.width();
    let height = frame.height();
    if width == 0 || height == 0 {
        return None;
    }
    if fill_rgba_buffer_from_frame(frame, rgba_scratch).is_none() {
        return None;
    }
    let should_scale = allow_scaled && (target_w != width || target_h != height);
    if should_scale {
        if scale_rgba_nearest(rgba_scratch.as_slice(), width, height, target_w, target_h, scaled_scratch).is_some() {
            let ghost r0 = *retry;
            let ghost f0 = encoder.fed();
            if let Some(out) = encode_frame_with_retry(
                config,
                encoder,
                target_w,
                target_h,
                scaled_scratch.as_slice(),
                retry,
            ) {
                return Some((out, true));
            }
            let ghost mid = *retry;
            let ghost fm = encoder.fed();
            assert(retry_run(r0, target_w, target_h, scaled_scratch@, f0, fm, mid));
            let second = encode_frame_with_retry(config, encoder, width, height, rgba_scratch.as_slice(), retry);
            proof {
                lemma_fed_in_turn(f0, fm, encoder.fed(), scaled_scratch@, target_w, target_h, rgba_scratch@, width, height, bytes_of(second));
            }
            let r = match second {
                Some(out) => Some((out, false)),
                None => None,
            };
            return r;
        }
        if let Some(out) = encode_frame_with_retry(config, encoder, width, height, rgba_scratch.as_slice(), retry) {
            return Some((out, false));
        }
        return None;
    }
    match encode_frame_with_retry(config, encoder, width, height, rgba_scratch.as_slice(), retry) {
        Some(out) => Some((out, false)),
        None => None,
    }
}

/// The encode outcome of a frame whose payload was built as `b`: the payload's length and
/// whether it is the scaled picture, or a failure when nothing came out.
pub open spec fn outcome_of(b: Option<(Seq<u8>, bool)>) -> EncodeOutcome {
    match b {
        Some((q, scaled)) => EncodeOutcome::Encoded { len: q.len() as usize, scaled },
        None => EncodeOutcome::Failed,
    }
}

/// What handling a due frame gives, from the pacing state `p1` and the plan it got, the
/// outcome `o` of its encode and the payload's bytes: the next pacing state, and the payload
/// with its RTP timing when the pacing sends it.
pub open spec fn frame_result(p1: FramePacing, plan: FramePlan, o: EncodeOutcome, payload: Option<Seq<u8>>) -> (
    FramePacing,
    Option<(Seq<u8>, FrameSend)>,
) {
    let (s2, send) = finished(p1, plan, o);
    (
        s2,
        match (send, payload) {
            (Some(t), Some(q)) => Some((q, t)),
            _ => None,
        },
    )
}

/// The bytes of a sent payload and its timing.
pub open spec fn sent_view(r: Option<(Vec<u8>, FrameSend)>) -> Option<(Seq<u8>, FrameSend)> {
    match r {
        Some((p, send)) => Some((p@, send)),
        None => None,
    }
}

/// The worker's video sender: the pacing state, the encoder and its bookkeeping, and the
/// picture buffers it reuses.
pub struct FrameSender {
    pacing: FramePacing,
    encoder: SizedEncoder,
    config: EncoderConfig,
    retry: EncodeRetry,
    rgba_scratch: Vec<u8>,
    scaled_scratch: Vec<u8>,
}

impl FrameSender {
    /// The pacing state.
    pub closed spec fn pacing_state(&self) -> FramePacing {
        self.pacing
    }

    /// The encoder's bookkeeping.
    pub closed spec fn retry_state(&self) -> EncodeRetry {
        self.retry
    }

    /// The target bitrate the current encoder was built with.
    pub closed spec fn encoder_bitrate(&self) -> u32 {
        self.encoder.bitrate()
    }

    /// The pictures handed to the encoder so far, with what came back.
    pub closed spec fn fed(&self) -> Seq<FedPicture> {
        self.encoder.fed()
    }

    /// The last frame's RGBA picture.
    pub closed spec fn rgba_picture(&self) -> Seq<u8> {
        self.rgba_scratch@
    }

    /// The last scaled picture.
    pub closed spec fn scaled_picture(&self) -> Seq<u8> {
        self.scaled_scratch@
    }

    /// The quality profile stays within its limits.
    pub closed spec fn wf(&self) -> bool {
        profile_in_range(self.pacing.profile)
    }

    /// A sender with an encoder for the full-quality size, built from the base encoder
    /// configuration; `None` when OpenH264 does not start.
    pub fn new(config: EncoderConfig) -> (r: Option<Self>)
        ensures
            r matches Some(s) ==> s.wf() && s.pacing_state() == initial_pacing() && s.retry_state() == (EncodeRetry {
                last_encode_dims: None,
                empty_streak: 0,
                empty_recovery_cooldown_frames: 0,
            }) && s.encoder_bitrate() == bitrate_for(VIDEO_WIDTH_LIMIT, VIDEO_HEIGHT_LIMIT) && s.fed()
                == Seq::<FedPicture>::empty(),
    {
        let encoder = match new_encoder_for_dims(&config, VIDEO_WIDTH_LIMIT, VIDEO_HEIGHT_LIMIT) {
            Some(e) => e,
            None => return None,
        };
        Some(
            FrameSender {
                pacing: FramePacing::new(),
                encoder,
                config,
                retry: EncodeRetry { last_encode_dims: None, empty_streak: 0, empty_recovery_cooldown_frames: 0 },
                rgba_scratch: Vec::new(),
                scaled_scratch: Vec::new(),
            },
        )
    }

    /// The picture size the current profile scales frames to fit.
    pub fn target_size(&self) -> (r: (u32, u32))
        ensures
            r == (self.pacing_state().profile.target_width, self.pacing_state().profile.target_height),
    {
        (self.pacing.profile.target_width, self.pacing.profile.target_height)
    }

    /// No session watches: the next one starts afresh.
    pub fn mark_idle(&mut self)
        requires
            old(self).wf(),
        ensures
            final(self).wf(),
            final(self).pacing_state() == (FramePacing { had_active_session: false, ..old(self).pacing_state() }),
            final(self).retry_state() == old(self).retry_state(),
            final(self).encoder_bitrate() == old(self).encoder_bitrate(),
            final(self).fed() == old(self).fed(),
    {
        self.pacing.mark_idle();
    }

    /// When a session has just become active: restarts from the default profile, forgets
    /// the encoder's size and streak, and asks for a keyframe; says whether it did.
    pub fn activate_if_idle(&mut self) -> (reset: bool)
        requires
            old(self).wf(),
        ensures
            final(self).wf(),
            reset == !old(self).pacing_state().had_active_session,
            final(self).encoder_bitrate() == old(self).encoder_bitrate(),
            final(self).fed() == old(self).fed(),
            final(self).pacing_state() == (if reset {
                activated(old(self).pacing_state())
            } else {
                old(self).pacing_state()
            }),
            final(self).retry_state() == (if reset {
                EncodeRetry { last_encode_dims: None, empty_streak: 0, ..old(self).retry_state() }
            } else {
                old(self).retry_state()
            }),
    {
        proof {
            crate::video_pacing::law_pacing_keeps_profile_in_range(
                self.pacing,
                FramePlan {
                    sample_duration_ms: 1,
                    packet_step: 1,
                    should_attempt_scaled: false,
                    allow_scaled: false,
                    force_intra: false,
                    attempt_encode: false,
                },
                EncodeOutcome::Skipped,
            );
        }
        if !self.pacing.activate_if_idle() {
            return false;
        }
        self.retry.empty_streak = 0;
        self.retry.last_encode_dims = None;
        force_intra(&mut self.encoder.encoder);
        true
    }

    /// Takes in the room's requests and the frame's size: a keyframe refresh rebuilds the
    /// encoder for the profile's size (keeping the old one when that fails) and asks for a
    /// keyframe, as does a forced IDR; a refresh or a new source size clears the empty streak.
    pub fn apply_room_requests(&mut self, keyframe_refresh: bool, force_idr: bool, width: u32, height: u32)
        requires
            old(self).wf(),
        ensures
            final(self).wf(),
            final(self).pacing_state() == after_requests(old(self).pacing_state(), keyframe_refresh, width, height),
            final(self).retry_state().empty_recovery_cooldown_frames == old(self).retry_state().empty_recovery_cooldown_frames,
            final(self).retry_state().empty_streak == (if keyframe_refresh || width
                != old(self).pacing_state().last_source_width || height != old(self).pacing_state().last_source_height {
                0
            } else {
                old(self).retry_state().empty_streak
            }),
            keyframe_refresh ==> final(self).retry_state().last_encode_dims is None || final(self).retry_state().last_encode_dims == old(self).retry_state().last_encode_dims,
            !keyframe_refresh ==> final(self).retry_state().last_encode_dims == old(self).retry_state().last_encode_dims,
            !keyframe_refresh ==> final(self).encoder_bitrate() == old(self).encoder_bitrate(),
            keyframe_refresh ==> final(self).encoder_bitrate() == old(self).encoder_bitrate() || final(self).encoder_bitrate() == bitrate_for(
                old(self).pacing_state().profile.target_width,
                old(self).pacing_state().profile.target_height,
            ),
            final(self).fed() == old(self).fed(),
    {
        if keyframe_refresh {
            match new_encoder_for_dims(&self.config, self.pacing.profile.target_width, self.pacing.profile.target_height) {
                Some(e) => {
                    self.encoder.install(e);
                    self.retry.last_encode_dims = None;
                },
                None => {},
            }
            force_intra(&mut self.encoder.encoder);
            self.retry.empty_streak = 0;
        }
        if force_idr {
            force_intra(&mut self.encoder.encoder);
        }
        if width != self.pacing.last_source_width || height != self.pacing.last_source_height {
            self.retry.empty_streak = 0;
        }
        self.pacing.apply_room_requests(keyframe_refresh, width, height);
    }

    /// Whether a frame `elapsed_ms` after the last one sent, of this source and scaled
    /// size, is due.
    pub fn is_due(&self, elapsed_ms: u128, width: u32, height: u32, scaled_w: u32, scaled_h: u32) -> (b: bool)
        ensures
            b == (elapsed_ms >= due_interval(self.pacing_state(), width, height, scaled_w, scaled_h)),
    {
        elapsed_ms >= self.pacing.due_interval_ms(width, height, scaled_w, scaled_h) as u128
    }

    /// Handles a frame `elapsed_ms` after the last one sent, given the size the profile
    /// scales it to: when it is due, encodes it as planned and hands back the payload with
    /// its RTP timing when it is to be sent.
    pub fn handle_frame(&mut self, frame: &VideoFrame, elapsed_ms: u128, scaled_w: u32, scaled_h: u32) -> (r: Option<
        (Vec<u8>, FrameSend),
    >)
        requires
            old(self).wf(),
            elapsed_ms >= due_interval(old(self).pacing_state(), frame.spec_width(), frame.spec_height(), scaled_w, scaled_h)
                && frame_converts(
                frame.spec_format(),
                frame.spec_data().len() as int,
                frame.spec_width() as int,
                frame.spec_height() as int,
                frame.spec_pitch() as int,
            ) ==> frame.spec_width() % 2 == 0 && frame.spec_height() % 2 == 0,
            scaled_w != frame.spec_width() || scaled_h != frame.spec_height() ==> scaled_w % 2 == 0 && scaled_h % 2
                == 0,
        ensures
            final(self).wf(),
            elapsed_ms < due_interval(
                old(self).pacing_state(),
                frame.spec_width(),
                frame.spec_height(),
                scaled_w,
                scaled_h,
            ) ==> r is None && *final(self) == *old(self),
            elapsed_ms >= due_interval(
                old(self).pacing_state(),
                frame.spec_width(),
                frame.spec_height(),
                scaled_w,
                scaled_h,
            ) ==> {
                let (p1, plan) = planned(
                    old(self).pacing_state(),
                    elapsed_ms,
                    frame.spec_width(),
                    frame.spec_height(),
                    scaled_w,
                    scaled_h,
                );
                &&& !plan.attempt_encode ==> (final(self).pacing_state(), sent_view(r)) == frame_result(
                    p1,
                    plan,
                    EncodeOutcome::Skipped,
                    None,
                ) && final(self).retry_state() == old(self).retry_state() && final(self).rgba_picture() == old(
                    self,
                ).rgba_picture() && final(self).scaled_picture() == old(self).scaled_picture() && final(self).fed()
                    == old(self).fed()
                &&& plan.attempt_encode ==> exists|b: Option<(Seq<u8>, bool)>|
                    #[trigger] payload_built(
                        *frame,
                        scaled_w,
                        scaled_h,
                        plan.allow_scaled,
                        old(self).retry_state(),
                        final(self).retry_state(),
                        old(self).rgba_picture(),
                        final(self).rgba_picture(),
                        old(self).scaled_picture(),
                        final(self).scaled_picture(),
                        old(self).fed(),
                        final(self).fed(),
                        b,
                    ) && (final(self).pacing_state(), sent_view(r)) == frame_result(
                        p1,
                        plan,
                        outcome_of(b),
                        match b {
                            Some((q, _)) => Some(q),
                            None => None,
                        },
                    )
            },
    {
        let width = frame.width();
        let height = frame.height();
        let plan = match self.pacing.begin_frame(elapsed_ms, width, height, scaled_w, scaled_h) {
            Some(p) => p,
            None => return None,
        };
        let ghost p1 = self.pacing;
        if plan.force_intra {
            force_intra(&mut self.encoder.encoder);
        }
        let mut payload: Option<Vec<u8>> = None;
        let ghost mut built: Option<(Seq<u8>, bool)> = None;
        let outcome = if !plan.attempt_encode {
            EncodeOutcome::Skipped
        } else {
            let b = build_video_payload(
                &self.config,
                &mut self.encoder,
                &mut self.retry,
                frame,
                scaled_w,
                scaled_h,
                plan.allow_scaled,
                &mut self.rgba_scratch,
                &mut self.scaled_scratch,
            );
            proof {
                built = payload_view(b);
            }
            match b {
                Some((p, scaled)) => {
                    let len = p.len();
                    payload = Some(p);
                    EncodeOutcome::Encoded { len, scaled }
                },
                None => EncodeOutcome::Failed,
            }
        };
        proof {
            crate::video_pacing::law_pacing_keeps_profile_in_range(p1, plan, outcome);
        }
        let sent = self.pacing.finish_frame(plan, outcome);
        let r = match sent {
            Some(send) => match payload {
                Some(p) => Some((p, send)),
                None => None,
            },
            None => None,
        };
        proof {
            if plan.attempt_encode {
                assert(payload_built(
                    *frame,
                    scaled_w,
                    scaled_h,
                    plan.allow_scaled,
                    old(self).retry_state(),
                    self.retry_state(),
                    old(self).rgba_picture(),
                    self.rgba_picture(),
                    old(self).scaled_picture(),
                    self.scaled_picture(),
                    old(self).fed(),
                    self.fed(),
                    built,
                ));
            }
        }
        r
    }
}

} // verus!
