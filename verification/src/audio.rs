//! Audio payloads sent to browsers: interleaved 16-bit samples, little-endian, in base64.
use vstd::prelude::*;

use crate::json::{b64_encode, base64_encode};
use crate::text::{decimal, push_str, u64_to_string};

verus! {

/// The two little-endian bytes of a 16-bit sample.
pub open spec fn sample_bytes(s: i16) -> Seq<u8> {
    let u = if s < 0 {
        s + 65536
    } else {
        s as int
    };
    seq![(u % 256) as u8, (u / 256) as u8]
}

/// The little-endian bytes of samples, in order.
pub open spec fn pcm_bytes(samples: Seq<i16>) -> Seq<u8>
    decreases samples.len(),
{
    if samples.len() == 0 {
        Seq::empty()
    } else {
        pcm_bytes(samples.drop_last()) + sample_bytes(samples.last())
    }
}

/// The little-endian bytes of samples.
pub fn pcm_le_bytes(samples: &[i16]) -> (b: Vec<u8>)
    ensures
        b@ == pcm_bytes(samples@),
{
    let mut out: Vec<u8> = Vec::new();
    let mut i: usize = 0;
    while i < samples.len()
        invariant
            i <= samples@.len(),
            out@ == pcm_bytes(samples@.subrange(0, i as int)),
        decreases samples.len() - i,
    {
        let s = samples[i];
        let u: u32 = if s < 0 {
            (s as i32 + 65536) as u32
        } else {
            s as u32
        };
        out.push((u % 256) as u8);
        out.push((u / 256) as u8);
        assert(samples@.subrange(0, i + 1).drop_last() =~= samples@.subrange(0, i as int));
        i = i + 1;
        assert(out@ =~= pcm_bytes(samples@.subrange(0, i as int)));
    }
    assert(samples@.subrange(0, i as int) =~= samples@);
    out
}

/// The payload of an audio frame: the samples' little-endian bytes in base64.
pub fn encode_audio_payload(samples: &[i16]) -> (p: String)
    ensures
        p@ == b64_encode(pcm_bytes(samples@)),
{
    let bytes = pcm_le_bytes(samples);
    base64_encode(bytes.as_slice())
}

/// Milliseconds of sound in one audio message.
pub const AUDIO_FRAME_MS: u32 = 20;

/// The largest message, in samples: the one at the highest sample rate.
pub const AUDIO_MAX_CHUNK_SAMPLES: usize = 171798692;

/// The samples (two channels interleaved) in one message at a sample rate: two per frame,
/// for 20 ms of frames rounded up, a rate of 0 counting as 1; that is, twice
/// `ceil(rate * 20 / 1000)`. In floating point that quotient is either a whole number,
/// computed exactly, or at least a fiftieth away from one, so rounding there never changes
/// the ceiling either.
pub open spec fn chunk_len(sample_rate: u32) -> nat {
    let r: nat = if sample_rate == 0 {
        1
    } else {
        sample_rate as nat
    };
    2 * ((r * (AUDIO_FRAME_MS as nat) + 999) / 1000)
}

/// The samples in one message at a sample rate.
pub fn audio_chunk_samples(sample_rate: u32) -> (n: usize)
    ensures
        n == chunk_len(sample_rate),
        2 <= n <= AUDIO_MAX_CHUNK_SAMPLES,
{
    let r: u64 = if sample_rate == 0 {
        1
    } else {
        sample_rate as u64
    };
    let frames = (r * 20 + 999) / 1000;
    assert(frames <= 85899346);
    (2 * frames) as usize
}

/// The messages that whole chunks of `all` make, `n` samples each, in order.
pub open spec fn chunk_payloads(all: Seq<i16>, n: nat) -> Seq<Seq<char>>
    recommends
        n > 0,
{
    Seq::new(all.len() / n, |i: int| b64_encode(pcm_bytes(all.subrange(i * n, i * n + n))))
}

/// Gathers the emulator's audio into messages of 20 ms each.
pub struct AudioChunker {
    pending: Vec<i16>,
}

impl View for AudioChunker {
    type V = Seq<i16>;

    /// The samples waiting for a full message.
    closed spec fn view(&self) -> Seq<i16> {
        self.pending@
    }
}

impl AudioChunker {
    /// Fewer samples wait than the largest message holds.
    pub closed spec fn wf(&self) -> bool {
        self.pending@.len() < AUDIO_MAX_CHUNK_SAMPLES
    }

    /// Nothing waiting.
    pub fn new() -> (c: Self)
        ensures
            c.wf(),
            c@ == Seq::<i16>::empty(),
    {
        AudioChunker { pending: Vec::new() }
    }

    /// Takes in a frame of interleaved stereo samples and hands back the messages that are
    /// now full, in order; the rest waits. An empty frame, or one with an odd number of
    /// samples, is dropped.
    pub fn push_frame(&mut self, samples: &[i16], sample_rate: u32) -> (payloads: Vec<String>)
        requires
            old(self).wf(),
            samples@.len() + AUDIO_MAX_CHUNK_SAMPLES <= usize::MAX,
        ensures
            final(self).wf(),
            samples@.len() == 0 || samples@.len() % 2 == 1 ==> payloads@.len() == 0 && final(self)@ == old(self)@,
            samples@.len() != 0 && samples@.len() % 2 == 0 ==> {
                let all = old(self)@ + samples@;
                let n = chunk_len(sample_rate);
                &&& payloads@.map_values(|p: String| p@) == chunk_payloads(all, n)
                &&& final(self)@ == all.subrange(((all.len() / n) * n) as int, all.len() as int)
            },
    {
        if samples.len() == 0 || samples.len() % 2 == 1 {
            return Vec::new();
        }
        let n = audio_chunk_samples(sample_rate);
        let ghost all = self.pending@ + samples@;
        let mut buf: Vec<i16> = Vec::new();
        std::mem::swap(&mut buf, &mut self.pending);
        let mut j: usize = 0;
        while j < samples.len()
            invariant
                j <= samples@.len(),
                buf@ == old(self)@ + samples@.subrange(0, j as int),
                old(self)@.len() < AUDIO_MAX_CHUNK_SAMPLES,
                samples@.len() + AUDIO_MAX_CHUNK_SAMPLES <= usize::MAX,
            decreases samples.len() - j,
        {
            buf.push(samples[j]);
            j = j + 1;
            assert(buf@ =~= old(self)@ + samples@.subrange(0, j as int));
        }
        assert(samples@.subrange(0, j as int) =~= samples@);
        assert(buf@ == all);
        let mut payloads: Vec<String> = Vec::new();
        let mut start: usize = 0;
        assert(payloads@.len() * n == 0) by (nonlinear_arith)
            requires
                payloads@.len() == 0,
        ;
        while buf.len() - start >= n
            invariant
                buf@ == all,
                2 <= n <= AUDIO_MAX_CHUNK_SAMPLES,
                n == chunk_len(sample_rate),
                start <= buf@.len(),
                start == payloads@.len() * n,
                forall|i: int|
                    0 <= i < payloads@.len() ==> #[trigger] payloads@[i]@ == b64_encode(
                        pcm_bytes(all.subrange(i * n, i * n + n)),
                    ),
            decreases buf.len() - start,
        {
            let mut chunk: Vec<i16> = Vec::new();
            let mut k: usize = 0;
            while k < n
                invariant
                    buf@ == all,
                    buf@.len() <= usize::MAX,
                    k <= n,
                    start + n <= buf@.len(),
                    chunk@ == all.subrange(start as int, start + k),
                decreases n - k,
            {
                chunk.push(buf[start + k]);
                k = k + 1;
                assert(chunk@ =~= all.subrange(start as int, start + k));
            }
            let p = encode_audio_payload(chunk.as_slice());
            let ghost m = payloads@.len() as int;
            payloads.push(p);
            assert((m + 1) * n == m * n + n) by (nonlinear_arith);
            start = start + n;
        }
        let ghost k = payloads@.len() as int;
        proof {
            vstd::arithmetic::div_mod::lemma_fundamental_div_mod_converse_div(
                all.len() as int,
                n as int,
                k,
                all.len() - k * n,
            );
        }
        let mut rest: Vec<i16> = Vec::new();
        let mut i: usize = start;
        while i < buf.len()
            invariant
                buf@ == all,
                start <= i <= buf@.len(),
                rest@ == all.subrange(start as int, i as int),
            decreases buf.len() - i,
        {
            rest.push(buf[i]);
            i = i + 1;
            assert(rest@ =~= all.subrange(start as int, i as int));
        }
        self.pending = rest;
        assert(payloads@.map_values(|p: String| p@) =~= chunk_payloads(all, n as nat));
        payloads
    }
}

/// The samples of the first `k` chunks of `n` samples of `all`, one after the other.
pub open spec fn flatten_chunks(all: Seq<i16>, n: nat, k: nat) -> Seq<i16>
    decreases k,
{
    if k == 0 {
        Seq::empty()
    } else {
        flatten_chunks(all, n, (k - 1) as nat) + all.subrange((k - 1) * n, (k - 1) * n + n)
    }
}

proof fn lemma_flatten_chunks_prefix(all: Seq<i16>, n: nat, k: nat)
    requires
        k * n <= all.len(),
    ensures
        flatten_chunks(all, n, k) == all.subrange(0, (k * n) as int),
    decreases k,
{
    if k > 0 {
        assert((k - 1) * n + n == k * n) by (nonlinear_arith);
        assert((k - 1) * n <= k * n) by (nonlinear_arith);
        lemma_flatten_chunks_prefix(all, n, (k - 1) as nat);
        assert(all.subrange(0, ((k - 1) * n) as int) + all.subrange((k - 1) * n, (k - 1) * n + n) =~= all.subrange(
            0,
            (k * n) as int,
        ));
    } else {
        assert(k * n == 0) by (nonlinear_arith)
            requires
                k == 0,
        ;
        assert(all.subrange(0, 0) =~= Seq::<i16>::empty());
    }
}

/// No sample is lost, doubled or reordered: the chunks that become messages, followed by
/// the samples left waiting, are exactly the samples that were waiting followed by those
/// of the frame.
pub proof fn law_audio_chunks_keep_samples_in_order(all: Seq<i16>, n: nat)
    requires
        n > 0,
    ensures
        flatten_chunks(all, n, all.len() / n) + all.subrange(((all.len() / n) * n) as int, all.len() as int) == all,
{
    let k = all.len() / n;
    assert(k * n <= all.len()) by (nonlinear_arith)
        requires
            n > 0,
            k == all.len() / n,
    ;
    lemma_flatten_chunks_prefix(all, n, k);
    assert(all.subrange(0, (k * n) as int) + all.subrange((k * n) as int, all.len() as int) =~= all);
}

/// The kind tag of an audio message.
pub const AUDIO_KIND: &'static str = "pcm16";
/// The version of the audio message format.
pub const AUDIO_VERSION: u64 = 1;
/// The channels of the audio in a message.
pub const AUDIO_CHANNELS: u64 = 2;

/// The text sent to browsers for an audio payload: the kind, the format version, the sample
/// rate and the channel count, then the base64 samples, separated by `|`.
pub fn audio_frame_message(sample_rate: u32, encoded: &str) -> (m: String)
    ensures
        m@ == AUDIO_KIND@ + "|v="@ + decimal(AUDIO_VERSION as nat) + "|sr="@ + decimal(sample_rate as nat) + "|ch="@
            + decimal(AUDIO_CHANNELS as nat) + "|"@ + encoded@,
{
    let mut m = AUDIO_KIND.to_owned();
    push_str(&mut m, "|v=");
    let v = u64_to_string(AUDIO_VERSION);
    push_str(&mut m, v.as_str());
    push_str(&mut m, "|sr=");
    let r = u64_to_string(sample_rate as u64);
    push_str(&mut m, r.as_str());
    push_str(&mut m, "|ch=");
    let c = u64_to_string(AUDIO_CHANNELS);
    push_str(&mut m, c.as_str());
    push_str(&mut m, "|");
    push_str(&mut m, encoded);
    m
}

} // verus!
