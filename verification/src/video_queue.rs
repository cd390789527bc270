//! The per-session queue of encoded video samples: bounded, and when full it keeps the
//! keyframe a decoder needs and drops the stalest frames instead.
use vstd::prelude::*;

verus! {

/// What a push did to the queue.
#[derive(Debug, Clone, Copy, PartialEq, Eq, Structural)]
pub struct VideoQueuePushResult {
    pub len_after: usize,
    pub was_full: bool,
    pub dropped_existing: usize,
    pub dropped_incoming: bool,
}

/// A bounded queue of video samples, each marked keyframe or not.
pub struct VideoSampleQueue<T> {
    capacity: usize,
    closed: bool,
    buffer: Vec<(T, bool)>,
}

/// The queue after pushing `s` (a keyframe when `kf`) onto the queue `q` of capacity `cap`,
/// and the outcome.
pub open spec fn pushed<T>(q: Seq<(T, bool)>, cap: nat, closed: bool, s: T, kf: bool) -> (
    Seq<(T, bool)>,
    VideoQueuePushResult,
) {
    if closed {
        (q, VideoQueuePushResult { len_after: 0, was_full: false, dropped_existing: 0, dropped_incoming: true })
    } else if q.len() >= cap {
        if kf {
            (
                seq![(s, kf)],
                VideoQueuePushResult {
                    len_after: 1,
                    was_full: true,
                    dropped_existing: q.len() as usize,
                    dropped_incoming: false,
                },
            )
        } else if q[0].1 {
            if q.len() == 1 {
                (
                    q,
                    VideoQueuePushResult {
                        len_after: q.len() as usize,
                        was_full: true,
                        dropped_existing: 0,
                        dropped_incoming: true,
                    },
                )
            } else {
                let q2 = q.remove(1).push((s, kf));
                (
                    q2,
                    VideoQueuePushResult {
                        len_after: q2.len() as usize,
                        was_full: true,
                        dropped_existing: 1,
                        dropped_incoming: false,
                    },
                )
            }
        } else {
            let q2 = q.drop_first().push((s, kf));
            (
                q2,
                VideoQueuePushResult {
                    len_after: q2.len() as usize,
                    was_full: true,
                    dropped_existing: 1,
                    dropped_incoming: false,
                },
            )
        }
    } else {
        let q2 = q.push((s, kf));
        (
            q2,
            VideoQueuePushResult {
                len_after: q2.len() as usize,
                was_full: false,
                dropped_existing: 0,
                dropped_incoming: false,
            },
        )
    }
}

impl<T> VideoSampleQueue<T> {
    /// The queued samples, oldest first, each with its keyframe mark.
    pub closed spec fn samples(&self) -> Seq<(T, bool)> {
        self.buffer@
    }

    /// How many samples the queue holds at most.
    pub closed spec fn spec_capacity(&self) -> nat {
        self.capacity as nat
    }

    /// Whether the queue was closed.
    pub closed spec fn is_closed(&self) -> bool {
        self.closed
    }

    /// The capacity is at least one and not exceeded.
    pub closed spec fn wf(&self) -> bool {
        self.capacity >= 1 && self.buffer@.len() <= self.capacity
    }

    /// An open, empty queue of the given capacity, at least one.
    pub fn new(capacity: usize) -> (q: Self)
        ensures
            q.wf(),
            q.samples() == Seq::<(T, bool)>::empty(),
            q.spec_capacity() == (if capacity > 1 { capacity } else { 1 }),
            !q.is_closed(),
    {
        VideoSampleQueue { capacity: if capacity > 1 { capacity } else { 1 }, closed: false, buffer: Vec::new() }
    }

    /// Whether the queue was closed.
    pub fn closed(&self) -> (b: bool)
        ensures
            b == self.is_closed(),
    {
        self.closed
    }

    /// Closes the queue: later pushes are dropped, and pops end once it is empty.
    pub fn close(&mut self)
        requires
            old(self).wf(),
        ensures
            final(self).wf(),
            final(self).is_closed(),
            final(self).samples() == old(self).samples(),
            final(self).spec_capacity() == old(self).spec_capacity(),
    {
        self.closed = true;
    }

    /// Queues a sample. When the queue is full, an incoming keyframe replaces everything;
    /// otherwise a keyframe at the front is kept and the frame after it dropped, or else the
    /// oldest frame is dropped; a lone keyframe is never displaced by a delta frame.
    pub fn push(&mut self, sample: T, is_keyframe: bool) -> (r: VideoQueuePushResult)
        requires
            old(self).wf(),
        ensures
            final(self).wf(),
            (final(self).samples(), r) == pushed(
                old(self).samples(),
                old(self).spec_capacity(),
                old(self).is_closed(),
                sample,
                is_keyframe,
            ),
            final(self).spec_capacity() == old(self).spec_capacity(),
            final(self).is_closed() == old(self).is_closed(),
    {
        if self.closed {
            return VideoQueuePushResult { len_after: 0, was_full: false, dropped_existing: 0, dropped_incoming: true };
        }
        let mut was_full = false;
        let mut dropped_existing: usize = 0;
        if self.buffer.len() >= self.capacity {
            was_full = true;
            if is_keyframe {
                dropped_existing = self.buffer.len();
                self.buffer.clear();
            } else if self.buffer[0].1 {
                if self.buffer.len() == 1 {
                    return VideoQueuePushResult {
                        len_after: self.buffer.len(),
                        was_full: true,
                        dropped_existing: 0,
                        dropped_incoming: true,
                    };
                }
                let _ = self.buffer.remove(1);
                dropped_existing = 1;
            } else {
                let _ = self.buffer.remove(0);
                assert(self.buffer@ =~= old(self).buffer@.drop_first());
                dropped_existing = 1;
            }
        }
        self.buffer.push((sample, is_keyframe));
        assert(is_keyframe && was_full ==> self.buffer@ =~= seq![(sample, is_keyframe)]);
        VideoQueuePushResult { len_after: self.buffer.len(), was_full, dropped_existing, dropped_incoming: false }
    }

    /// Takes the oldest sample, if any.
    pub fn pop(&mut self) -> (r: Option<T>)
        requires
            old(self).wf(),
        ensures
            final(self).wf(),
            old(self).samples().len() == 0 ==> r is None && final(self).samples() == old(self).samples(),
            old(self).samples().len() > 0 ==> r == Some(old(self).samples()[0].0) && final(self).samples()
                == old(self).samples().drop_first(),
            final(self).spec_capacity() == old(self).spec_capacity(),
            final(self).is_closed() == old(self).is_closed(),
    {
        if self.buffer.len() == 0 {
            return None;
        }
        let (s, _) = self.buffer.remove(0);
        assert(self.buffer@ =~= old(self).buffer@.drop_first());
        Some(s)
    }
}

/// The congestion seen while handing one frame to every session's queue.
#[derive(Debug, Clone, Copy, PartialEq, Eq, Structural)]
pub struct VideoPressureSnapshot {
    /// The longest queue after the push.
    pub max_queue_len: usize,
    /// How many queues were full.
    pub congested_events: usize,
    /// How many frames were dropped, queued or incoming.
    pub dropped_frames: usize,
}

/// `a + b`, or the largest `usize` when that does not fit.
pub open spec fn sat_add(a: usize, b: int) -> usize {
    if a + b > usize::MAX {
        usize::MAX
    } else {
        (a + b) as usize
    }
}

/// The frames a push dropped.
pub open spec fn dropped_by(r: VideoQueuePushResult) -> int {
    r.dropped_existing + if r.dropped_incoming {
        1int
    } else {
        0int
    }
}

impl VideoPressureSnapshot {
    /// No congestion seen.
    pub fn new() -> (s: Self)
        ensures
            s == (VideoPressureSnapshot { max_queue_len: 0, congested_events: 0, dropped_frames: 0 }),
    {
        VideoPressureSnapshot { max_queue_len: 0, congested_events: 0, dropped_frames: 0 }
    }

    /// Counts in the outcome of one push (the counts saturate).
    pub fn record(&mut self, r: VideoQueuePushResult)
        requires
            dropped_by(r) <= usize::MAX,
        ensures
            final(self).max_queue_len == (if r.len_after > old(self).max_queue_len {
                r.len_after
            } else {
                old(self).max_queue_len
            }),
            final(self).congested_events == (if r.was_full {
                sat_add(old(self).congested_events, 1)
            } else {
                old(self).congested_events
            }),
            final(self).dropped_frames == sat_add(old(self).dropped_frames, dropped_by(r)),
    {
        if r.len_after > self.max_queue_len {
            self.max_queue_len = r.len_after;
        }
        if r.was_full {
            self.congested_events = self.congested_events.saturating_add(1);
        }
        let incoming: usize = if r.dropped_incoming {
            1
        } else {
            0
        };
        self.dropped_frames = self.dropped_frames.saturating_add(r.dropped_existing + incoming);
    }
}

/// Holds back a session's video until its first keyframe: a decoder cannot start on a
/// delta frame.
#[derive(Debug)]
pub struct KeyframeGate {
    pub sent_keyframe: bool,
}

impl KeyframeGate {
    /// Nothing sent yet.
    pub fn new() -> (g: Self)
        ensures
            !g.sent_keyframe,
    {
        KeyframeGate { sent_keyframe: false }
    }

    /// Whether to send a frame: once a keyframe has passed, everything passes.
    pub fn lets_through(&mut self, is_keyframe: bool) -> (b: bool)
        ensures
            b == (old(self).sent_keyframe || is_keyframe),
            final(self).sent_keyframe == b,
    {
        if is_keyframe {
            self.sent_keyframe = true;
        }
        self.sent_keyframe
    }
}

/// A push never takes the queue past its capacity, and a keyframe pushed onto an open
/// queue is always kept, last.
pub proof fn law_push_bounded_and_keeps_keyframes<T>(q: Seq<(T, bool)>, cap: nat, closed: bool, s: T, kf: bool)
    requires
        cap >= 1,
        q.len() <= cap,
    ensures
        pushed(q, cap, closed, s, kf).0.len() <= cap,
        !closed && kf ==> pushed(q, cap, closed, s, kf).0.last() == (s, kf),
        !closed && q.len() > 0 && q[0].1 ==> pushed(q, cap, closed, s, kf).0[0].1,
{
}

/// Whether `a` is what a push keeps of `q`, in order: all of it, all but its oldest frame,
/// all but the frame after the oldest, or nothing.
pub open spec fn kept_in_order<T>(a: Seq<T>, q: Seq<T>) -> bool {
    ||| a == q
    ||| (q.len() > 0 && a == q.drop_first())
    ||| (q.len() > 1 && a == q.remove(1))
    ||| a.len() == 0
}

/// A push onto an open queue either drops the incoming frame (only a delta frame meeting a
/// full queue that holds a lone keyframe) and leaves the queue as it was, or puts the frame
/// last after what is kept of the queue, in its order; the outcome reports the length and
/// whether the queue was full.
pub proof fn law_push_keeps_order<T>(q: Seq<(T, bool)>, cap: nat, closed: bool, s: T, kf: bool)
    requires
        cap >= 1,
        cap <= usize::MAX,
        q.len() <= cap,
    ensures
        ({
            let (q2, r) = pushed(q, cap, closed, s, kf);
            &&& closed ==> q2 == q && r.dropped_incoming
            &&& !closed ==> r.was_full == (q.len() >= cap) && r.len_after == q2.len()
            &&& !closed && r.dropped_incoming ==> q2 == q && q.len() == 1 && q.len() >= cap && !kf && q[0].1
            &&& !closed && !r.dropped_incoming ==> q2.len() > 0 && q2.last() == (s, kf) && q2.len() == q.len() + 1
                - r.dropped_existing && kept_in_order(q2.drop_last(), q)
        }),
{
    let (q2, r) = pushed(q, cap, closed, s, kf);
    if !closed && !r.dropped_incoming {
        let a = q2.drop_last();
        if q.len() < cap {
            assert(a =~= q);
        } else if kf {
            assert(a.len() == 0);
        } else if q[0].1 {
            assert(a =~= q.remove(1));
        } else {
            assert(a =~= q.drop_first());
        }
    }
}

} // verus!
