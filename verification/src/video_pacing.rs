//! The video sender's per-frame decisions: when a frame is due, its RTP timing, when the
//! encoder is to start a keyframe, whether the scaled path is tried, and how the quality
//! profile follows what the encoder produced. The encoding itself happens elsewhere; its
//! outcome comes back here.
use vstd::prelude::*;

use crate::video::{
    default_profile, degrade_video_profile, degraded, is_min_video_profile, max_int, min_frame_interval, h264_min_frame_interval_ms,
    profile_in_range, restore_video_profile, restored, VideoProfile, VIDEO_FRAME_INTERVAL_MS_MIN,
    VIDEO_FRAME_INTERVAL_STEP_MS, VIDEO_RTP_CLOCK_RATE,
};

verus! {

/// After this many failed scaled attempts for one source size, scaling is switched off.
pub const VIDEO_SCALE_FALLBACK_DISABLE_AFTER: u32 = 1;
/// Frames to wait before scaling is tried again.
pub const VIDEO_SCALE_FALLBACK_COOLDOWN_FRAMES: u32 = 0;
/// Frames to skip encoding after a failure.
pub const VIDEO_ENCODER_FAILURE_COOLDOWN_FRAMES: u32 = 0;
/// Failed encodes tolerated before the first payload, before the profile is lowered.
pub const VIDEO_STARTUP_ENCODE_RETRY_LIMIT: u8 = 3;
/// Frames between forced keyframes.
pub const VIDEO_ENCODER_REFRESH_FRAMES: u64 = 200;
/// The largest payload sent; larger ones lower the profile and are dropped.
pub const VIDEO_TARGET_MAX_PAYLOAD_BYTES: usize = 786432;
/// Sent frames between quality restorations.
pub const VIDEO_STABLE_FRAMES_PER_RESTORE: u64 = 120;

/// The sender's decision state between frames.
#[derive(Debug, Clone, Copy, PartialEq, Eq, Structural)]
pub struct FramePacing {
    pub profile: VideoProfile,
    pub stable_frames: u64,
    pub packet_timestamp: u32,
    pub startup_encode_failures: u8,
    pub first_payload_sent: bool,
    pub had_active_session: bool,
    pub encoder_frames_since_refresh: u64,
    pub scaled_failures_for_source: u32,
    pub scaled_cooldown_frames: u32,
    pub encode_failure_cooldown_frames: u32,
    pub disable_scaled_for_source: bool,
    pub last_source_width: u32,
    pub last_source_height: u32,
}

/// What is decided for a frame that is due.
#[derive(Debug, Clone, Copy, PartialEq, Eq, Structural)]
pub struct FramePlan {
    /// The duration the frame stands for, in milliseconds.
    pub sample_duration_ms: u64,
    /// The RTP timestamp step to the next frame.
    pub packet_step: u32,
    /// Whether the scaled size differs from the source size.
    pub should_attempt_scaled: bool,
    /// Whether the scaled path may be tried.
    pub allow_scaled: bool,
    /// Whether the encoder is to start a keyframe.
    pub force_intra: bool,
    /// Whether to encode at all.
    pub attempt_encode: bool,
}

/// What encoding the frame gave.
#[derive(Debug, Clone, Copy, PartialEq, Eq, Structural)]
pub enum EncodeOutcome {
    /// Encoding was not attempted.
    Skipped,
    /// No payload came out.
    Failed,
    /// A payload of `len` bytes, from the scaled frame when `scaled`.
    Encoded { len: usize, scaled: bool },
}

/// A payload to send: its RTP timestamp and duration.
#[derive(Debug, Clone, Copy, PartialEq, Eq, Structural)]
pub struct FrameSend {
    pub timestamp: u32,
    pub duration_ms: u64,
}

/// The state of a sender that has not seen an active session yet.
pub open spec fn initial_pacing() -> FramePacing {
    FramePacing {
        profile: default_profile(),
        stable_frames: 0,
        packet_timestamp: 0,
        startup_encode_failures: 0,
        first_payload_sent: false,
        had_active_session: false,
        encoder_frames_since_refresh: 0,
        scaled_failures_for_source: 0,
        scaled_cooldown_frames: 0,
        encode_failure_cooldown_frames: 0,
        disable_scaled_for_source: false,
        last_source_width: 0,
        last_source_height: 0,
    }
}

/// The state once a session becomes active: everything restarts from the default profile.
pub open spec fn activated(s: FramePacing) -> FramePacing {
    FramePacing {
        had_active_session: true,
        profile: default_profile(),
        startup_encode_failures: 0,
        first_payload_sent: false,
        stable_frames: 0,
        packet_timestamp: 0,
        disable_scaled_for_source: false,
        scaled_failures_for_source: 0,
        scaled_cooldown_frames: 0,
        encode_failure_cooldown_frames: 0,
        encoder_frames_since_refresh: 0,
        ..s
    }
}

/// The state after the room's requests: a keyframe refresh restarts the startup counters,
/// and a new source size restarts the scaling and failure counters.
pub open spec fn after_requests(s: FramePacing, refresh: bool, width: u32, height: u32) -> FramePacing {
    let r = if refresh {
        FramePacing {
            first_payload_sent: false,
            stable_frames: 0,
            startup_encode_failures: 0,
            scaled_failures_for_source: 0,
            disable_scaled_for_source: false,
            scaled_cooldown_frames: 0,
            encode_failure_cooldown_frames: 0,
            encoder_frames_since_refresh: 0,
            ..s
        }
    } else {
        s
    };
    if width != r.last_source_width || height != r.last_source_height {
        FramePacing {
            last_source_width: width,
            last_source_height: height,
            scaled_failures_for_source: 0,
            scaled_cooldown_frames: 0,
            encode_failure_cooldown_frames: 0,
            disable_scaled_for_source: false,
            ..r
        }
    } else {
        r
    }
}

/// The interval a frame of this source and scaled size waits for.
pub open spec fn due_interval(s: FramePacing, width: u32, height: u32, scaled_w: u32, scaled_h: u32) -> u64 {
    let scaled = scaled_w != width || scaled_h != height;
    let (pw, ph) = if scaled {
        (scaled_w, scaled_h)
    } else {
        (width, height)
    };
    max_int(s.profile.frame_interval_ms as int, min_frame_interval(pw, ph) as int) as u64
}

/// The plan for a due frame, and the state it leaves: the cooldowns count down, and a
/// keyframe is forced every refresh period.
pub open spec fn planned(
    s: FramePacing,
    elapsed_ms: u128,
    width: u32,
    height: u32,
    scaled_w: u32,
    scaled_h: u32,
) -> (FramePacing, FramePlan) {
    let interval = due_interval(s, width, height, scaled_w, scaled_h);
    let elapsed64 = if elapsed_ms <= u64::MAX {
        elapsed_ms as int
    } else {
        interval as int
    };
    let duration = max_int(max_int(elapsed64, interval as int), 1);
    let step = max_int((duration * VIDEO_RTP_CLOCK_RATE) / 1000, 1);
    let should = scaled_w != width || scaled_h != height;
    let scd = if s.scaled_cooldown_frames > 0 {
        (s.scaled_cooldown_frames - 1) as u32
    } else {
        0u32
    };
    let disable = if s.scaled_cooldown_frames > 0 && scd == 0 {
        false
    } else {
        s.disable_scaled_for_source
    };
    let efc = if s.encode_failure_cooldown_frames > 0 {
        (s.encode_failure_cooldown_frames - 1) as u32
    } else {
        0u32
    };
    let force = s.encoder_frames_since_refresh >= VIDEO_ENCODER_REFRESH_FRAMES;
    (
        FramePacing {
            scaled_cooldown_frames: scd,
            disable_scaled_for_source: disable,
            encode_failure_cooldown_frames: efc,
            encoder_frames_since_refresh: if force {
                0
            } else {
                s.encoder_frames_since_refresh
            },
            ..s
        },
        FramePlan {
            sample_duration_ms: duration as u64,
            packet_step: step as u32,
            should_attempt_scaled: should,
            allow_scaled: should && !disable && scd == 0,
            force_intra: force,
            attempt_encode: efc == 0,
        },
    )
}

/// The profile after an encode outcome: an oversized payload or a failure past the
/// startup allowance lowers it, unless it is at the lowest already.
pub open spec fn lowered_unless_min(p: VideoProfile) -> VideoProfile {
    if p.target_width == crate::video::VIDEO_WIDTH_LIMIT_MIN && p.target_height == crate::video::VIDEO_HEIGHT_LIMIT_MIN
        && p.frame_interval_ms == crate::video::VIDEO_FRAME_INTERVAL_MS_MAX {
        p
    } else {
        degraded(p)
    }
}

/// The state after a due frame was encoded with `outcome`, and what is sent, if anything.
pub open spec fn finished(s: FramePacing, plan: FramePlan, outcome: EncodeOutcome) -> (FramePacing, Option<FrameSend>) {
    let attempted_scaled = plan.allow_scaled && !(outcome is Skipped);
    let transport_failed = match outcome {
        EncodeOutcome::Encoded { len, scaled } => !scaled && plan.should_attempt_scaled,
        _ => true,
    };
    let s1 = if attempted_scaled && transport_failed {
        let f = if s.scaled_failures_for_source < u32::MAX {
            (s.scaled_failures_for_source + 1) as u32
        } else {
            s.scaled_failures_for_source
        };
        if f >= VIDEO_SCALE_FALLBACK_DISABLE_AFTER {
            FramePacing {
                scaled_failures_for_source: 0,
                disable_scaled_for_source: true,
                scaled_cooldown_frames: VIDEO_SCALE_FALLBACK_COOLDOWN_FRAMES,
                ..s
            }
        } else {
            FramePacing { scaled_failures_for_source: f, scaled_cooldown_frames: VIDEO_SCALE_FALLBACK_COOLDOWN_FRAMES, ..s }
        }
    } else if attempted_scaled {
        FramePacing { scaled_failures_for_source: 0, disable_scaled_for_source: false, ..s }
    } else {
        s
    };
    match outcome {
        EncodeOutcome::Encoded { len, scaled } => if len > VIDEO_TARGET_MAX_PAYLOAD_BYTES {
            (FramePacing { profile: lowered_unless_min(s1.profile), ..s1 }, None)
        } else {
            let stable = if s1.stable_frames < u64::MAX {
                (s1.stable_frames + 1) as u64
            } else {
                s1.stable_frames
            };
            let restore = stable % VIDEO_STABLE_FRAMES_PER_RESTORE == 0;
            let p1 = if restore {
                restored(s1.profile)
            } else {
                s1.profile
            };
            let p2 = if len < VIDEO_TARGET_MAX_PAYLOAD_BYTES / 2 {
                VideoProfile {
                    frame_interval_ms: max_int(
                        max_int(p1.frame_interval_ms - VIDEO_FRAME_INTERVAL_STEP_MS, 0),
                        VIDEO_FRAME_INTERVAL_MS_MIN as int,
                    ) as u64,
                    ..p1
                }
            } else {
                p1
            };
            (
                FramePacing {
                    packet_timestamp: ((s1.packet_timestamp + plan.packet_step) % 0x1_0000_0000) as u32,
                    encoder_frames_since_refresh: if s1.encoder_frames_since_refresh < u64::MAX {
                        (s1.encoder_frames_since_refresh + 1) as u64
                    } else {
                        s1.encoder_frames_since_refresh
                    },
                    first_payload_sent: true,
                    startup_encode_failures: 0,
                    stable_frames: if restore {
                        0
                    } else {
                        stable
                    },
                    profile: p2,
                    ..s1
                },
                Some(FrameSend { timestamp: s1.packet_timestamp, duration_ms: plan.sample_duration_ms }),
            )
        },
        _ => if !s1.first_payload_sent && s1.startup_encode_failures < VIDEO_STARTUP_ENCODE_RETRY_LIMIT {
            (FramePacing { startup_encode_failures: (s1.startup_encode_failures + 1) as u8, ..s1 }, None)
        } else {
            (FramePacing { profile: lowered_unless_min(s1.profile), ..s1 }, None)
        },
    }
}

impl FramePacing {
    /// The state of a sender before any session.
    pub fn new() -> (s: Self)
        ensures
            s == initial_pacing(),
    {
        FramePacing {
            profile: VideoProfile::default(),
            stable_frames: 0,
            packet_timestamp: 0,
            startup_encode_failures: 0,
            first_payload_sent: false,
            had_active_session: false,
            encoder_frames_since_refresh: 0,
            scaled_failures_for_source: 0,
            scaled_cooldown_frames: 0,
            encode_failure_cooldown_frames: 0,
            disable_scaled_for_source: false,
            last_source_width: 0,
            last_source_height: 0,
        }
    }

    /// No session is watching: the next active session starts afresh.
    pub fn mark_idle(&mut self)
        ensures
            *final(self) == (FramePacing { had_active_session: false, ..*old(self) }),
    {
        self.had_active_session = false;
    }

    /// When a session has just become active, restarts from the default profile and says
    /// so (the encoder is then to start a keyframe, and the room's requests wait for the
    /// next frame); otherwise changes nothing.
    pub fn activate_if_idle(&mut self) -> (reset: bool)
        ensures
            reset == !old(self).had_active_session,
            *final(self) == (if reset {
                activated(*old(self))
            } else {
                *old(self)
            }),
    {
        if self.had_active_session {
            return false;
        }
        self.had_active_session = true;
        self.profile = VideoProfile::default();
        self.startup_encode_failures = 0;
        self.first_payload_sent = false;
        self.stable_frames = 0;
        self.packet_timestamp = 0;
        self.disable_scaled_for_source = false;
        self.scaled_failures_for_source = 0;
        self.scaled_cooldown_frames = 0;
        self.encode_failure_cooldown_frames = 0;
        self.encoder_frames_since_refresh = 0;
        true
    }

    /// Takes in the room's keyframe refresh request and the source size of the frame.
    pub fn apply_room_requests(&mut self, keyframe_refresh: bool, width: u32, height: u32)
        ensures
            *final(self) == after_requests(*old(self), keyframe_refresh, width, height),
    {
        if keyframe_refresh {
            self.first_payload_sent = false;
            self.stable_frames = 0;
            self.startup_encode_failures = 0;
            self.scaled_failures_for_source = 0;
            self.disable_scaled_for_source = false;
            self.scaled_cooldown_frames = 0;
            self.encode_failure_cooldown_frames = 0;
            self.encoder_frames_since_refresh = 0;
        }
        if width != self.last_source_width || height != self.last_source_height {
            self.last_source_width = width;
            self.last_source_height = height;
            self.scaled_failures_for_source = 0;
            self.scaled_cooldown_frames = 0;
            self.encode_failure_cooldown_frames = 0;
            self.disable_scaled_for_source = false;
        }
    }

    /// The interval, in milliseconds, a frame of this source and scaled size waits for.
    pub fn due_interval_ms(&self, width: u32, height: u32, scaled_w: u32, scaled_h: u32) -> (ms: u64)
        ensures
            ms == due_interval(*self, width, height, scaled_w, scaled_h),
    {
        let should_attempt_scaled = scaled_w != width || scaled_h != height;
        let (pw, ph) = if should_attempt_scaled {
            (scaled_w, scaled_h)
        } else {
            (width, height)
        };
        let min_interval = h264_min_frame_interval_ms(pw, ph);
        if self.profile.frame_interval_ms > min_interval {
            self.profile.frame_interval_ms
        } else {
            min_interval
        }
    }

    /// Decides on a frame `elapsed_ms` after the last one sent, of the given source size and
    /// the size it scales to: `None`, changing nothing, when it is not due yet.
    pub fn begin_frame(&mut self, elapsed_ms: u128, width: u32, height: u32, scaled_w: u32, scaled_h: u32) -> (r:
        Option<FramePlan>)
        ensures
            elapsed_ms < due_interval(*old(self), width, height, scaled_w, scaled_h) ==> r is None && *final(self)
                == *old(self),
            elapsed_ms >= due_interval(*old(self), width, height, scaled_w, scaled_h) ==> r is Some && (
            *final(self),
            r->0,
            ) == planned(*old(self), elapsed_ms, width, height, scaled_w, scaled_h),
    {
        let should_attempt_scaled = scaled_w != width || scaled_h != height;
        let (pw, ph) = if should_attempt_scaled {
            (scaled_w, scaled_h)
        } else {
            (width, height)
        };
        let min_interval = h264_min_frame_interval_ms(pw, ph);
        let interval = if self.profile.frame_interval_ms > min_interval {
            self.profile.frame_interval_ms
        } else {
            min_interval
        };
        if elapsed_ms < interval as u128 {
            return None;
        }
        let elapsed64: u64 = if elapsed_ms <= u64::MAX as u128 {
            elapsed_ms as u64
        } else {
            interval
        };
        let d1 = if elapsed64 > interval {
            elapsed64
        } else {
            interval
        };
        let duration = if d1 > 1 {
            d1
        } else {
            1
        };
        assert((duration as u128) * 90000 <= 0xffff_ffff_ffff_ffffu128 * 90000) by (nonlinear_arith)
            requires
                duration <= 0xffff_ffff_ffff_ffffu64,
        ;
        let q: u128 = (duration as u128) * (VIDEO_RTP_CLOCK_RATE as u128) / 1000;
        let step128 = if q > 1 {
            q
        } else {
            1
        };
        let step = #[verifier::truncate] (step128 as u32);
        if self.scaled_cooldown_frames > 0 {
            self.scaled_cooldown_frames = self.scaled_cooldown_frames - 1;
            if self.scaled_cooldown_frames == 0 {
                self.disable_scaled_for_source = false;
            }
        }
        if self.encode_failure_cooldown_frames > 0 {
            self.encode_failure_cooldown_frames = self.encode_failure_cooldown_frames - 1;
        }
        let allow_scaled = should_attempt_scaled && !self.disable_scaled_for_source && self.scaled_cooldown_frames == 0;
        let force_intra = self.encoder_frames_since_refresh >= VIDEO_ENCODER_REFRESH_FRAMES;
        if force_intra {
            self.encoder_frames_since_refresh = 0;
        }
        Some(
            FramePlan {
                sample_duration_ms: duration,
                packet_step: step,
                should_attempt_scaled,
                allow_scaled,
                force_intra,
                attempt_encode: self.encode_failure_cooldown_frames == 0,
            },
        )
    }

    /// Takes in what encoding a due frame gave: updates the scaling counters and the profile,
    /// and says what to send, if anything.
    pub fn finish_frame(&mut self, plan: FramePlan, outcome: EncodeOutcome) -> (r: Option<FrameSend>)
        requires
            profile_in_range(old(self).profile),
        ensures
            (*final(self), r) == finished(*old(self), plan, outcome),
            profile_in_range(final(self).profile),
    {
        let attempted_scaled = plan.allow_scaled && !(outcome == EncodeOutcome::Skipped);
        let transport_failed = match outcome {
            EncodeOutcome::Encoded { len: _, scaled } => !scaled && plan.should_attempt_scaled,
            _ => true,
        };
        if attempted_scaled && transport_failed {
            self.scaled_failures_for_source = self.scaled_failures_for_source.saturating_add(1);
            if self.scaled_failures_for_source >= VIDEO_SCALE_FALLBACK_DISABLE_AFTER {
                self.scaled_failures_for_source = 0;
                self.disable_scaled_for_source = true;
                self.scaled_cooldown_frames = VIDEO_SCALE_FALLBACK_COOLDOWN_FRAMES;
            } else {
                self.scaled_cooldown_frames = VIDEO_SCALE_FALLBACK_COOLDOWN_FRAMES;
            }
        } else if attempted_scaled {
            self.scaled_failures_for_source = 0;
            self.disable_scaled_for_source = false;
        }
        match outcome {
            EncodeOutcome::Encoded { len, scaled: _ } => {
                if len > VIDEO_TARGET_MAX_PAYLOAD_BYTES {
                    if !is_min_video_profile(&self.profile) {
                        degrade_video_profile(&mut self.profile);
                    }
                    return None;
                }
                let send = FrameSend { timestamp: self.packet_timestamp, duration_ms: plan.sample_duration_ms };
                self.packet_timestamp = self.packet_timestamp.wrapping_add(plan.packet_step);
                self.encoder_frames_since_refresh = self.encoder_frames_since_refresh.saturating_add(1);
                self.first_payload_sent = true;
                self.startup_encode_failures = 0;
                self.stable_frames = self.stable_frames.saturating_add(1);
                if self.stable_frames % VIDEO_STABLE_FRAMES_PER_RESTORE == 0 {
                    restore_video_profile(&mut self.profile);
                    self.stable_frames = 0;
                }
                if len < VIDEO_TARGET_MAX_PAYLOAD_BYTES / 2 {
                    let f = self.profile.frame_interval_ms.saturating_sub(VIDEO_FRAME_INTERVAL_STEP_MS);
                    self.profile.frame_interval_ms = if f > VIDEO_FRAME_INTERVAL_MS_MIN {
                        f
                    } else {
                        VIDEO_FRAME_INTERVAL_MS_MIN
                    };
                }
                Some(send)
            },
            _ => {
                if !self.first_payload_sent && self.startup_encode_failures < VIDEO_STARTUP_ENCODE_RETRY_LIMIT {
                    self.startup_encode_failures = self.startup_encode_failures + 1;
                } else if !is_min_video_profile(&self.profile) {
                    degrade_video_profile(&mut self.profile);
                }
                None
            },
        }
    }
}

/// The profile never leaves its range, whatever the frames bring.
pub proof fn law_pacing_keeps_profile_in_range(s: FramePacing, plan: FramePlan, outcome: EncodeOutcome)
    requires
        profile_in_range(s.profile),
    ensures
        profile_in_range(finished(s, plan, outcome).0.profile),
        profile_in_range(activated(s).profile),
{
    crate::video::law_profile_steps_stay_in_range(s.profile);
}

/// A frame is sent only when it was encoded within the size limit, stamped with the
/// timestamp the previous frames advanced to.
pub proof fn law_only_encoded_frames_are_sent(s: FramePacing, plan: FramePlan, outcome: EncodeOutcome)
    ensures
        finished(s, plan, outcome).1 is Some ==> (outcome matches EncodeOutcome::Encoded { len, scaled } && len
            <= VIDEO_TARGET_MAX_PAYLOAD_BYTES && finished(s, plan, outcome).1->0.timestamp == s.packet_timestamp),
{
}

} // verus!
