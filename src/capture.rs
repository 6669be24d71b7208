use vstd::prelude::*;
use crate::structs::{FrequencyBand, FrequencyInterval, VisualiserSettings};
use crate::util::{is_distribution, makeDistribution};

verus! {

/// Minimum time between two analysis ticks, in milliseconds.
pub const ANALYSIS_INTERVAL_MS: u64 = 15;

/// Bytes of one captured sample (32-bit float, little-endian).
pub const SAMPLE_BYTES: usize = 4;

/// Whether a capture worker is active. At most one worker runs at a time.
#[derive(Clone, Copy, Debug, PartialEq, Eq)]
pub enum CaptureState {
    Idle,
    Running,
}

impl Default for CaptureState {
    fn default() -> (r: Self)
        ensures
            r == CaptureState::Idle,
    {
        CaptureState::Idle
    }
}

impl CaptureState {
    /// Handles a start request. From `Idle` the state becomes `Running` and
    /// the second result asks for a worker to be spawned; from `Running` the
    /// request changes nothing and spawns nothing. Neither case is an error.
    pub fn request_start(self) -> (r: (CaptureState, bool))
        ensures
            r.0 == CaptureState::Running,
            r.1 == (self == CaptureState::Idle),
    {
        match self {
            CaptureState::Idle => (CaptureState::Running, true),
            CaptureState::Running => (CaptureState::Running, false),
        }
    }

    /// The worker ended, normally or not: the state is `Idle` again.
    pub fn worker_finished(self) -> (r: CaptureState)
        ensures
            r == CaptureState::Idle,
    {
        CaptureState::Idle
    }
}

/// State and number of workers spawned after `n` start requests from `s`.
pub open spec fn after_start_requests(s: CaptureState, n: nat) -> (CaptureState, nat)
    decreases n,
{
    if n == 0 {
        (s, 0)
    } else {
        let prev = after_start_requests(s, (n - 1) as nat);
        if prev.0 == CaptureState::Idle {
            (CaptureState::Running, prev.1 + 1)
        } else {
            (CaptureState::Running, prev.1)
        }
    }
}

/// Any number `n >= 1` of start requests, however they are interleaved,
/// spawns exactly one worker from `Idle` and leaves the state `Running`;
/// once that worker ends the state is `Idle` again.
pub proof fn lemma_single_worker(n: nat)
    requires
        n >= 1,
    ensures
        after_start_requests(CaptureState::Idle, n) == (CaptureState::Running, 1nat),
        after_start_requests(CaptureState::Running, n).1 == 0,
    decreases n,
{
    assert(after_start_requests(CaptureState::Idle, 0) == (CaptureState::Idle, 0nat));
    assert(after_start_requests(CaptureState::Running, 0) == (CaptureState::Running, 0nat));
    if n > 1 {
        lemma_single_worker((n - 1) as nat);
    }
}

/// Little-endian 32-bit word at byte offset `at` of `b`.
pub open spec fn le_word(b: Seq<u8>, at: int) -> u32 {
    (b[at] as int + b[at + 1] as int * 0x100 + b[at + 2] as int * 0x1_0000 + b[at + 3] as int
        * 0x100_0000) as u32
}

/// Channel 0 of `frames` interleaved frames of `channels` 32-bit samples.
pub open spec fn channel0_samples(bytes: Seq<u8>, frames: nat, channels: nat) -> Seq<u32> {
    Seq::new(frames, |f: int| le_word(bytes, f * channels * 4))
}

/// Accumulated samples after one captured block: cleared on a
/// discontinuity, else extended by the block's channel 0.
pub open spec fn after_block(
    samples: Seq<u32>,
    bytes: Seq<u8>,
    frames: nat,
    channels: nat,
    discontinuity: bool,
) -> Seq<u32> {
    if discontinuity {
        Seq::empty()
    } else {
        samples + channel0_samples(bytes, frames, channels)
    }
}

/// Accumulated samples after a run of blocks, each given as
/// (bytes, frames, channels, discontinuity flag).
pub open spec fn replay(samples: Seq<u32>, blocks: Seq<(Seq<u8>, nat, nat, bool)>) -> Seq<u32>
    decreases blocks.len(),
{
    if blocks.len() == 0 {
        samples
    } else {
        let b = blocks.last();
        after_block(replay(samples, blocks.drop_last()), b.0, b.1, b.2, b.3)
    }
}

/// Channel 0 of a run of blocks, in capture order.
pub open spec fn captured(blocks: Seq<(Seq<u8>, nat, nat, bool)>) -> Seq<u32>
    decreases blocks.len(),
{
    if blocks.len() == 0 {
        Seq::empty()
    } else {
        let b = blocks.last();
        captured(blocks.drop_last()) + channel0_samples(b.0, b.1, b.2)
    }
}

/// After a discontinuity the accumulator holds only what was captured after
/// it: whatever was accumulated before, a flagged block followed by blocks
/// without the flag leaves exactly the channel 0 of those later blocks.
pub proof fn lemma_discontinuity_discards_earlier(
    samples: Seq<u32>,
    flagged: (Seq<u8>, nat, nat, bool),
    later: Seq<(Seq<u8>, nat, nat, bool)>,
)
    requires
        flagged.3,
        forall|i: int| 0 <= i < later.len() ==> !(#[trigger] later[i]).3,
    ensures
        replay(samples, seq![flagged] + later) == captured(later),
    decreases later.len(),
{
    if later.len() == 0 {
        assert(seq![flagged] + later =~= seq![flagged]);
        assert(seq![flagged].drop_last() =~= Seq::<(Seq<u8>, nat, nat, bool)>::empty());
    } else {
        let all = seq![flagged] + later;
        assert(all.drop_last() =~= seq![flagged] + later.drop_last());
        assert(all.last() == later.last());
        assert(!later[later.len() - 1].3);
        lemma_discontinuity_discards_earlier(samples, flagged, later.drop_last());
    }
}

/// Reads the little-endian word at `at`.
fn read_word(bytes: &[u8], at: usize) -> (w: u32)
    requires
        at + 4 <= bytes@.len(),
    ensures
        w == le_word(bytes@, at as int),
{
    bytes[at] as u32 + bytes[at + 1] as u32 * 0x100 + bytes[at + 2] as u32 * 0x1_0000
        + bytes[at + 3] as u32 * 0x100_0000
}

/// One capture session's buffering and pacing: the mono sample accumulator
/// and the time of the last completed analysis tick.
#[derive(Debug)]
pub struct CaptureSession {
    samples: Vec<u32>,
    last_analysis_ms: u64,
}

impl CaptureSession {
    /// Samples accumulated since the last completed tick or discontinuity.
    pub closed spec fn pending(&self) -> Seq<u32> {
        self.samples@
    }

    /// Time of the last completed tick (or of the session's start).
    pub closed spec fn last_tick(&self) -> u64 {
        self.last_analysis_ms
    }

    /// A session started at `now_ms`, with nothing accumulated.
    pub fn new(now_ms: u64) -> (r: CaptureSession)
        ensures
            r.pending() == Seq::<u32>::empty(),
            r.last_tick() == now_ms,
    {
        CaptureSession { samples: Vec::new(), last_analysis_ms: now_ms }
    }

    /// The accumulated samples, as 32-bit float bit patterns.
    pub fn samples(&self) -> (r: &Vec<u32>)
        ensures
            r@ == self.pending(),
    {
        &self.samples
    }

    /// Time of the last completed tick.
    pub fn last_analysis_ms(&self) -> (r: u64)
        ensures
            r == self.last_tick(),
    {
        self.last_analysis_ms
    }

    /// Takes one captured block of `frames` interleaved frames of `channels`
    /// samples. Only channel 0 is kept. On a discontinuity the accumulator
    /// is cleared and the block is not appended.
    pub fn push_block(&mut self, bytes: &[u8], frames: usize, channels: usize, discontinuity: bool)
        requires
            channels >= 1,
            frames * channels * SAMPLE_BYTES <= bytes@.len(),
        ensures
            final(self).pending() == after_block(
                old(self).pending(),
                bytes@,
                frames as nat,
                channels as nat,
                discontinuity,
            ),
            final(self).last_tick() == old(self).last_tick(),
    {
        if discontinuity {
            self.samples.clear();
            assert(self.samples@ =~= Seq::<u32>::empty());
            return ;
        }
        let ghost start = self.samples@;
        if frames == 0 {
            assert(self.samples@ =~= start + channel0_samples(bytes@, 0, channels as nat));
            return ;
        }
        proof {
            assert(channels * 4 <= frames * channels * 4) by (nonlinear_arith)
                requires
                    frames >= 1,
            ;
        }
        let len = bytes.len();
        assert(channels * SAMPLE_BYTES <= len);
        let stride = channels * SAMPLE_BYTES;
        let mut f: usize = 0;
        while f < frames
            invariant
                f <= frames,
                channels >= 1,
                stride == channels * 4,
                frames * channels * 4 <= bytes@.len(),
                self.samples@ == start + channel0_samples(bytes@, f as nat, channels as nat),
                self.last_analysis_ms == old(self).last_analysis_ms,
                len == bytes@.len(),
            decreases frames - f,
        {
            proof {
                assert(f * stride + 4 <= frames * stride) by (nonlinear_arith)
                    requires
                        f < frames,
                        stride >= 4,
                ;
                assert(frames * stride == frames * channels * 4) by (nonlinear_arith)
                    requires
                        stride == channels * 4,
                ;
                assert(f * stride == f * channels * 4) by (nonlinear_arith)
                    requires
                        stride == channels * 4,
                ;
            }
            let w = read_word(bytes, f * stride);
            self.samples.push(w);
            proof {
                assert(self.samples@ =~= start + channel0_samples(
                    bytes@,
                    (f + 1) as nat,
                    channels as nat,
                ));
            }
            f += 1;
        }
    }

    /// Whether an analysis tick is due at `now_ms`: at least the analysis
    /// interval has passed since the last completed tick.
    pub fn analysis_due(&self, now_ms: u64) -> (r: bool)
        ensures
            r == (now_ms >= self.last_tick() && now_ms - self.last_tick()
                >= ANALYSIS_INTERVAL_MS),
    {
        now_ms >= self.last_analysis_ms && now_ms - self.last_analysis_ms >= ANALYSIS_INTERVAL_MS
    }

    /// Completes an analysis tick at `now_ms` with what the spectral
    /// transform produced from the accumulated samples (one band list per
    /// channel group; the first is used) and the settings in force now.
    /// With no band list the tick is skipped and nothing changes. Otherwise
    /// the first list is binned with the current resolution and strategy,
    /// the accumulator is cleared and the tick time becomes `now_ms`.
    pub fn complete_tick(
        &mut self,
        spectrum: &[Vec<FrequencyBand>],
        settings: &VisualiserSettings,
        now_ms: u64,
    ) -> (r: Option<Vec<FrequencyInterval>>)
        ensures
            spectrum@.len() == 0 ==> r.is_none() && final(self).pending() == old(self).pending()
                && final(self).last_tick() == old(self).last_tick(),
            spectrum@.len() > 0 ==> r.is_some() && is_distribution(
                r.unwrap()@,
                spectrum@[0]@,
                settings.resolution as nat,
                settings.visualiserType,
            ) && final(self).pending() == Seq::<u32>::empty() && final(self).last_tick()
                == now_ms,
    {
        if spectrum.len() == 0 {
            return None;
        }
        let out = makeDistribution(
            spectrum[0].as_slice(),
            settings.resolution as usize,
            settings.visualiserType,
        );
        self.samples.clear();
        self.last_analysis_ms = now_ms;
        Some(out)
    }
}

} // verus!
