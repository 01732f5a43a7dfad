//! Stream loop decisions: the state machine driven by session events. Each
//! data event's bytes are demultiplexed in full and accumulated; once at
//! least one full window of samples is available, the most recent window is
//! handed out for one transform pass and the magnitudes that come back are
//! folded into the smoothed state and rendered. A distinguished sentinel
//! channel marks an out-of-band command event, which changes no state.

use vstd::prelude::*;

use crate::demux::{decode_samples, decode_spec, DemuxError};
use crate::format::{SampleFormat, StreamDescriptor};
use crate::render::{bar_spec, line_spec, render_frame};
use crate::smooth::{smooth_step, SmoothedState};
use crate::spectrum::{bin_frequencies, build_frame, SpectrumConfig};

verus! {

/// The channel value that marks an out-of-band command event rather than
/// stream data.
pub const COMMAND_CHANNEL: u32 = 0xffff_ffff;

/// What one session event carries.
#[derive(Clone, Copy, Debug, PartialEq, Eq, Structural)]
pub enum EventKind {
    /// A server-originated out-of-band message: logged or ignored, no state
    /// change.
    Command,
    /// A chunk of raw stream bytes to demultiplex and accumulate.
    Data,
}

/// Classify an event by its channel: the sentinel channel value denotes an
/// out-of-band command, every other channel carries stream data.
pub fn classify_channel(channel: u32) -> (k: EventKind)
    ensures
        k == (if channel == COMMAND_CHANNEL {
            EventKind::Command
        } else {
            EventKind::Data
        }),
{
    if channel == COMMAND_CHANNEL {
        EventKind::Command
    } else {
        EventKind::Data
    }
}

/// The samples the accumulator retains after feeding it: everything while
/// less than one window is available, and exactly the most recent window
/// once at least one window is.
pub open spec fn retained(fed: Seq<i32>, w: nat) -> Seq<i32> {
    if fed.len() <= w {
        fed
    } else {
        fed.skip(fed.len() - w)
    }
}

/// Total number of decoded samples across a series of data events.
pub open spec fn total_samples(chunks: Seq<Seq<i32>>) -> nat
    decreases chunks.len(),
{
    if chunks.len() == 0 {
        0
    } else {
        total_samples(chunks.drop_last()) + chunks.last().len()
    }
}

/// Number of decoded samples across the first `i` data events.
pub open spec fn cum_samples(chunks: Seq<Seq<i32>>, i: int) -> nat
    recommends
        0 <= i <= chunks.len(),
{
    total_samples(chunks.take(i))
}

/// Whether the `i`-th data event triggers a transform pass: it carried at
/// least one new sample and brought the running total to a full window.
pub open spec fn pass_at(chunks: Seq<Seq<i32>>, w: nat, i: int) -> bool
    recommends
        0 <= i < chunks.len(),
{
    chunks[i].len() > 0 && cum_samples(chunks, i + 1) >= w
}

/// Sample totals add over concatenated event series.
proof fn lemma_total_concat(a: Seq<Seq<i32>>, b: Seq<Seq<i32>>)
    ensures
        total_samples(a + b) == total_samples(a) + total_samples(b),
    decreases b.len(),
{
    if b.len() == 0 {
        assert(a + b =~= a);
    } else {
        lemma_total_concat(a, b.drop_last());
        assert((a + b).drop_last() =~= a + b.drop_last());
    }
}

/// The total over a series is at least the size of any one of its events.
proof fn lemma_total_elem(s: Seq<Seq<i32>>, k: int)
    requires
        0 <= k < s.len(),
    ensures
        total_samples(s) >= s[k].len(),
    decreases s.len(),
{
    if k < s.len() - 1 {
        lemma_total_elem(s.drop_last(), k);
    }
}

/// A series of empty events carries no samples.
proof fn lemma_total_all_empty(s: Seq<Seq<i32>>)
    requires
        forall|k: int| 0 <= k < s.len() ==> s[k].len() == 0,
    ensures
        total_samples(s) == 0,
    decreases s.len(),
{
    if s.len() > 0 {
        lemma_total_all_empty(s.drop_last());
    }
}

/// No prefix carries more samples than the whole series.
proof fn lemma_cum_le_total(chunks: Seq<Seq<i32>>, i: int)
    requires
        0 <= i <= chunks.len(),
    ensures
        cum_samples(chunks, i) <= total_samples(chunks),
{
    assert(chunks =~= chunks.take(i) + chunks.skip(i));
    lemma_total_concat(chunks.take(i), chunks.skip(i));
}

/// Accumulation gating, starved side: while fewer than one window of samples
/// has arrived in total, no data event of the series triggers a pass.
pub proof fn lemma_gating_none(chunks: Seq<Seq<i32>>, w: nat, i: int)
    requires
        total_samples(chunks) < w,
        0 <= i < chunks.len(),
    ensures
        !pass_at(chunks, w, i),
{
    lemma_cum_le_total(chunks, i + 1);
}

/// Accumulation gating, exact side: when the series carries exactly one
/// window of samples in total, exactly one event triggers a pass — the last
/// event that carried any samples.
pub proof fn lemma_gating_exactly_one(chunks: Seq<Seq<i32>>, w: nat, last_fed: int)
    requires
        total_samples(chunks) == w,
        w > 0,
        0 <= last_fed < chunks.len(),
        chunks[last_fed].len() > 0,
        forall|j: int| last_fed < j < chunks.len() ==> chunks[j].len() == 0,
    ensures
        pass_at(chunks, w, last_fed),
        forall|j: int| 0 <= j < chunks.len() && j != last_fed ==> !pass_at(chunks, w, j),
{
    assert(chunks =~= chunks.take(last_fed + 1) + chunks.skip(last_fed + 1));
    lemma_total_concat(chunks.take(last_fed + 1), chunks.skip(last_fed + 1));
    assert forall|k: int| 0 <= k < chunks.skip(last_fed + 1).len() implies #[trigger] chunks.skip(
        last_fed + 1,
    )[k].len() == 0 by {
        assert(chunks.skip(last_fed + 1)[k] == chunks[last_fed + 1 + k]);
    }
    lemma_total_all_empty(chunks.skip(last_fed + 1));
    assert(cum_samples(chunks, last_fed + 1) == w);
    assert forall|j: int| 0 <= j < chunks.len() && j != last_fed implies !pass_at(
        chunks,
        w,
        j,
    ) by {
        if j < last_fed {
            assert(chunks =~= chunks.take(j + 1) + chunks.skip(j + 1));
            lemma_total_concat(chunks.take(j + 1), chunks.skip(j + 1));
            lemma_total_elem(chunks.skip(j + 1), last_fed - (j + 1));
            assert(chunks.skip(j + 1)[last_fed - (j + 1)] == chunks[last_fed]);
        }
    }
}

/// An accumulator that holds the retained samples — everything seen, capped
/// at one window — gates a pass on the same condition as the running total
/// does: the cap never hides a full window.
pub proof fn lemma_acc_tracks_gate(acc_len: nat, seen: nat, w: nat, incoming: nat)
    requires
        acc_len == (if seen <= w {
            seen
        } else {
            w
        }),
    ensures
        (acc_len + incoming >= w) <==> (seen + incoming >= w),
{
}

/// The orchestrator's cross-iteration state: the negotiated sample format,
/// the fixed transform configuration, the sample accumulator and the
/// smoothed per-bin magnitudes. Only the accumulator and the smoothed state
/// change after construction.
pub struct StreamLoop {
    /// Sample encoding of the inbound byte stream, fixed at session setup.
    pub format: SampleFormat,
    /// The fixed transform configuration.
    pub cfg: SpectrumConfig,
    /// Decoded samples not yet consumed by a transform pass, most recent
    /// last; never holds more than one window.
    pub acc: Vec<i32>,
    /// The persistent smoothed magnitude per frequency bin.
    pub state: SmoothedState,
}

impl StreamLoop {
    /// The orchestrator's invariant: a valid configuration, one smoothed
    /// magnitude per bin of the fixed layout, and an accumulator no larger
    /// than one window.
    pub open spec fn wf(self) -> bool {
        &&& self.cfg.valid()
        &&& self.state.spec_len() == self.cfg.spec_bin_count()
        &&& self.acc@.len() <= self.cfg.window_len
    }

    /// Set up the loop state for a negotiated stream: empty accumulator and
    /// an all-zero smoothed state with one slot per frequency bin.
    pub fn new(desc: &StreamDescriptor, cfg: SpectrumConfig) -> (s: Self)
        requires
            cfg.valid(),
        ensures
            s.wf(),
            s.format == desc.format,
            s.cfg == cfg,
            s.acc@ == Seq::<i32>::empty(),
            s.state.values@ == Seq::new(cfg.spec_bin_count(), |i: int| 0u64),
    {
        let freqs = bin_frequencies(&cfg);
        let state = SmoothedState::new(freqs.len());
        StreamLoop { format: desc.format, cfg, acc: Vec::new(), state }
    }

    /// Handle one data event: demultiplex the bytes in full, append the
    /// samples to the accumulator, and hand out the most recent window of
    /// samples exactly when the event carried new samples and a full window
    /// is now available. The accumulator retains everything seen up to one
    /// window; the smoothed state is untouched. Framing failures change
    /// nothing and are fatal to the caller.
    pub fn handle_data(&mut self, bytes: &Vec<u8>) -> (r: Result<Option<Vec<i32>>, DemuxError>)
        requires
            old(self).wf(),
        ensures
            final(self).wf(),
            final(self).format == old(self).format,
            final(self).cfg == old(self).cfg,
            final(self).state == old(self).state,
            r matches Err(_) ==> final(self).acc == old(self).acc,
            old(self).format != SampleFormat::S32Le ==> r == Err::<Option<Vec<i32>>, DemuxError>(
                DemuxError::UnsupportedFormat,
            ),
            old(self).format == SampleFormat::S32Le && bytes@.len() % 4 != 0 ==> r == Err::<
                Option<Vec<i32>>,
                DemuxError,
            >(DemuxError::PartialFrame),
            old(self).format == SampleFormat::S32Le && bytes@.len() % 4 == 0 ==> (r matches Ok(_)),
            r matches Ok(w) ==> ((w matches Some(_)) <==> (decode_spec(bytes@).len() > 0 && old(
                self,
            ).acc@.len() + decode_spec(bytes@).len() >= old(self).cfg.window_len)),
            r matches Ok(w) ==> ({
                let fed = old(self).acc@ + decode_spec(bytes@);
                let win = old(self).cfg.window_len as nat;
                &&& final(self).acc@ == retained(fed, win)
                &&& (w matches Some(v) ==> decode_spec(bytes@).len() > 0 && fed.len() >= win && v@
                    == retained(fed, win))
                &&& (w is None ==> decode_spec(bytes@).len() == 0 || fed.len() < win)
            }),
    {
        let decoded = match decode_samples(bytes, self.format) {
            Ok(d) => d,
            Err(e) => {
                return Err(e);
            },
        };
        let ghost fed = self.acc@ + decoded@;
        let w = self.cfg.window_len;
        let dlen = decoded.len();
        let mut j: usize = 0;
        while j < dlen
            invariant
                j <= dlen,
                dlen == decoded@.len(),
                self.acc@ == old(self).acc@ + decoded@.take(j as int),
                self.format == old(self).format,
                self.cfg == old(self).cfg,
                self.state == old(self).state,
            decreases dlen - j,
        {
            self.acc.push(decoded[j]);
            proof {
                assert(old(self).acc@ + decoded@.take(j as int) + seq![decoded@[j as int]]
                    =~= old(self).acc@ + decoded@.take(j + 1));
            }
            j = j + 1;
        }
        proof {
            assert(self.acc@ =~= fed);
        }
        if dlen > 0 && self.acc.len() >= w {
            let start = self.acc.len() - w;
            let mut window: Vec<i32> = Vec::new();
            let mut i: usize = 0;
            while i < w
                invariant
                    i <= w,
                    start + w == self.acc@.len(),
                    self.acc@.len() <= usize::MAX,
                    window@ == self.acc@.subrange(start as int, start + i),
                    self.format == old(self).format,
                    self.cfg == old(self).cfg,
                    self.state == old(self).state,
                    self.acc@ == fed,
                decreases w - i,
            {
                window.push(self.acc[start + i]);
                proof {
                    assert(window@ =~= self.acc@.subrange(start as int, start + i + 1));
                }
                i = i + 1;
            }
            proof {
                assert(window@ =~= retained(fed, w as nat));
            }
            self.acc.clear();
            let mut i: usize = 0;
            while i < window.len()
                invariant
                    i <= window@.len(),
                    self.acc@ == window@.take(i as int),
                    self.format == old(self).format,
                    self.cfg == old(self).cfg,
                    self.state == old(self).state,
                    window@ == retained(fed, w as nat),
                    window@.len() == w,
                    w == self.cfg.window_len,
                decreases window@.len() - i,
            {
                self.acc.push(window[i]);
                proof {
                    assert(self.acc@ =~= window@.take(i + 1));
                }
                i = i + 1;
            }
            proof {
                assert(self.acc@ =~= window@);
            }
            Ok(Some(window))
        } else {
            proof {
                assert(fed == retained(fed, w as nat));
            }
            Ok(None)
        }
    }

    /// Fold the magnitudes of one transform pass into the smoothed state and
    /// render the frame: one line per bin of the fixed layout. Succeeds
    /// exactly when one magnitude per bin was supplied; on a mismatch
    /// nothing changes.
    pub fn apply_spectrum(&mut self, mags: &Vec<u64>) -> (r: Option<Vec<Vec<u8>>>)
        requires
            old(self).wf(),
        ensures
            final(self).wf(),
            final(self).format == old(self).format,
            final(self).cfg == old(self).cfg,
            final(self).acc == old(self).acc,
            (r matches Some(_)) <==> mags@.len() == old(self).cfg.spec_bin_count(),
            r is None ==> final(self).state == old(self).state,
            r matches Some(lines) ==> ({
                let freqs = old(self).cfg.bin_freqs();
                &&& final(self).state.spec_len() == old(self).state.spec_len()
                &&& forall|i: int|
                    0 <= i < final(self).state.spec_len() ==> final(self).state.values@[i]
                        == smooth_step(old(self).state.values@[i], mags@[i])
                &&& lines@.len() == freqs.len()
                &&& forall|i: int|
                    0 <= i < lines@.len() ==> lines@[i]@ == line_spec(
                        freqs[i],
                        bar_spec(final(self).state.values@[i], freqs[i]),
                    )
            }),
    {
        let frame = match build_frame(&self.cfg, mags) {
            Some(f) => f,
            None => {
                return None;
            },
        };
        proof {
            assert(frame.freqs().len() == frame.bins@.len());
        }
        self.state.update(mags);
        let lines = render_frame(&frame, &self.state);
        proof {
            assert forall|i: int| 0 <= i < lines@.len() implies lines@[i]@ == line_spec(
                self.cfg.bin_freqs()[i],
                bar_spec(self.state.values@[i], self.cfg.bin_freqs()[i]),
            ) by {
                assert(frame.bins@[i].freq == frame.freqs()[i]);
            }
        }
        Some(lines)
    }
}

} // verus!
