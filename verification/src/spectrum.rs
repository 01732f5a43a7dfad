//! Spectral frame layout. The frequency bins of the windowed transform are a
//! pure function of the stream configuration: sample rate, window length and
//! the configured frequency range. Magnitudes vary per frame; the bin
//! frequencies, their order and their number never do.

use vstd::prelude::*;
use vstd::arithmetic::div_mod::{lemma_div_is_ordered, lemma_div_multiples_vanish};
use vstd::arithmetic::mul::lemma_mul_inequality;

verus! {

/// Default window length, in samples, of one transform pass.
pub const DEFAULT_WINDOW_LEN: usize = 256;

/// Default lower edge, in Hz, of the displayed frequency range.
pub const DEFAULT_FREQ_LO: u32 = 50;

/// Default upper edge, in Hz, of the displayed frequency range.
pub const DEFAULT_FREQ_HI: u32 = 12000;

/// Fixed configuration of the windowed spectral transform, derived once from
/// the negotiated stream descriptor and never changed mid-run.
#[derive(Clone, Copy, Debug, PartialEq, Eq, Structural)]
pub struct SpectrumConfig {
    /// Samples per second of the analyzed stream.
    pub sample_rate: u32,
    /// Number of samples in one transform window.
    pub window_len: usize,
    /// Lowest bin frequency kept, in Hz (inclusive).
    pub freq_lo: u32,
    /// Highest bin frequency kept, in Hz (inclusive).
    pub freq_hi: u32,
}

impl SpectrumConfig {
    /// A configuration the transform can be driven with.
    pub open spec fn valid(self) -> bool {
        &&& self.sample_rate >= 1
        &&& self.window_len >= 2
        &&& self.freq_lo <= self.freq_hi
    }

    /// Center frequency, in Hz rounded down, of transform bin `k`.
    pub open spec fn spec_bin_freq(self, k: int) -> int {
        (k * self.sample_rate) / (self.window_len as int)
    }

    /// Whether bin `k` lies in the configured frequency range. Only bins up
    /// to half the window length carry distinct frequencies.
    pub open spec fn bin_included(self, k: int) -> bool {
        &&& 0 <= k <= self.window_len / 2
        &&& self.freq_lo <= self.spec_bin_freq(k) <= self.freq_hi
    }

    /// The frequencies of the included bins among the first `k` bins, in
    /// ascending bin order.
    pub open spec fn bin_freqs_upto(self, k: int) -> Seq<u32>
        decreases k,
    {
        if k <= 0 {
            Seq::empty()
        } else {
            let prev = self.bin_freqs_upto(k - 1);
            if self.bin_included(k - 1) {
                prev.push(self.spec_bin_freq(k - 1) as u32)
            } else {
                prev
            }
        }
    }

    /// The full fixed bin layout: the frequencies the transform reports, in
    /// ascending order, restricted to the configured range.
    pub open spec fn bin_freqs(self) -> Seq<u32> {
        self.bin_freqs_upto(self.window_len as int / 2 + 1)
    }

    /// How many bins a spectrum frame of this configuration holds.
    pub open spec fn spec_bin_count(self) -> nat {
        self.bin_freqs().len()
    }

    /// The default configuration for a negotiated sample rate: the default
    /// window length and displayed frequency range.
    pub fn for_rate(sample_rate: u32) -> (cfg: Self)
        requires
            sample_rate >= 1,
        ensures
            cfg == (SpectrumConfig {
                sample_rate,
                window_len: DEFAULT_WINDOW_LEN,
                freq_lo: DEFAULT_FREQ_LO,
                freq_hi: DEFAULT_FREQ_HI,
            }),
            cfg.valid(),
    {
        SpectrumConfig {
            sample_rate,
            window_len: DEFAULT_WINDOW_LEN,
            freq_lo: DEFAULT_FREQ_LO,
            freq_hi: DEFAULT_FREQ_HI,
        }
    }
}

/// A bin frequency is bounded by the sample rate.
proof fn lemma_bin_freq_bound(cfg: SpectrumConfig, k: int)
    requires
        cfg.valid(),
        0 <= k <= cfg.window_len / 2,
    ensures
        0 <= cfg.spec_bin_freq(k) < cfg.sample_rate,
{
    let w = cfg.window_len as int;
    let r = cfg.sample_rate as int;
    lemma_mul_inequality(k, w - 1, r);
    lemma_div_is_ordered(k * r, (w - 1) * r, w);
    assert((w - 1) * r == w * r - r) by (nonlinear_arith);
    assert((w * r - r) / w < r) by {
        lemma_div_multiples_vanish(r, w);
        assert(w * r - r < w * r);
        lemma_div_is_ordered(w * r - r, w * r - 1, w);
        assert((w * r - 1) / w == r - 1) by {
            assert(w * r - 1 == w * (r - 1) + (w - 1)) by (nonlinear_arith);
            assert((w * (r - 1) + (w - 1)) / w == r - 1) by {
                vstd::arithmetic::div_mod::lemma_div_multiples_vanish_fancy(r - 1, w - 1, w);
            }
        }
    }
    assert(k * r >= 0) by (nonlinear_arith)
        requires
            k >= 0 && r >= 0,
    ;
    vstd::arithmetic::div_mod::lemma_div_pos_is_pos(k * r, w);
}

/// Bin frequencies grow with the bin index.
proof fn lemma_bin_freq_monotone(cfg: SpectrumConfig, k1: int, k2: int)
    requires
        cfg.valid(),
        0 <= k1 <= k2,
    ensures
        cfg.spec_bin_freq(k1) <= cfg.spec_bin_freq(k2),
{
    lemma_mul_inequality(k1, k2, cfg.sample_rate as int);
    lemma_div_is_ordered(
        k1 * cfg.sample_rate,
        k2 * cfg.sample_rate,
        cfg.window_len as int,
    );
}

/// The first `k` bins of the layout hold non-decreasing frequencies, all of
/// them at most the frequency of bin `k - 1`.
proof fn lemma_bin_freqs_upto_sorted(cfg: SpectrumConfig, k: int)
    requires
        cfg.valid(),
        0 <= k <= cfg.window_len / 2 + 1,
    ensures
        forall|i: int, j: int|
            0 <= i <= j < cfg.bin_freqs_upto(k).len() ==> cfg.bin_freqs_upto(k)[i]
                <= cfg.bin_freqs_upto(k)[j],
        forall|i: int|
            0 <= i < cfg.bin_freqs_upto(k).len() ==> cfg.bin_freqs_upto(k)[i] <= cfg.spec_bin_freq(
                k - 1,
            ),
    decreases k,
{
    if k > 0 {
        lemma_bin_freqs_upto_sorted(cfg, k - 1);
        let prev = cfg.bin_freqs_upto(k - 1);
        let cur = cfg.bin_freqs_upto(k);
        if k >= 2 {
            lemma_bin_freq_monotone(cfg, k - 2, k - 1);
        } else {
            assert(prev.len() == 0);
        }
        if cfg.bin_included(k - 1) {
            lemma_bin_freq_bound(cfg, k - 1);
            assert(cur == prev.push(cfg.spec_bin_freq(k - 1) as u32));
            assert(cfg.spec_bin_freq(k - 1) as u32 == cfg.spec_bin_freq(k - 1));
            assert forall|i: int| 0 <= i < cur.len() implies cur[i] <= cfg.spec_bin_freq(
                k - 1,
            ) by {
                if i < prev.len() {
                    assert(prev[i] <= cfg.spec_bin_freq(k - 2));
                }
            }
            assert forall|i: int, j: int| 0 <= i <= j < cur.len() implies cur[i] <= cur[j] by {
                if j < prev.len() {
                    assert(prev[i] <= prev[j]);
                } else {
                    assert(cur[i] <= cfg.spec_bin_freq(k - 1));
                }
            }
        } else {
            assert(cur == prev);
            assert forall|i: int| 0 <= i < cur.len() implies cur[i] <= cfg.spec_bin_freq(
                k - 1,
            ) by {
                assert(prev[i] <= cfg.spec_bin_freq(k - 2));
            }
        }
    }
}

/// The fixed bin layout lists its frequencies in non-decreasing order.
pub proof fn lemma_bin_freqs_sorted(cfg: SpectrumConfig)
    requires
        cfg.valid(),
    ensures
        forall|i: int, j: int|
            0 <= i <= j < cfg.bin_freqs().len() ==> cfg.bin_freqs()[i] <= cfg.bin_freqs()[j],
{
    lemma_bin_freqs_upto_sorted(cfg, cfg.window_len as int / 2 + 1);
}

/// Compute the fixed bin layout of a configuration: the frequency, in Hz
/// rounded down, of every transform bin that falls inside the configured
/// range, in ascending bin order.
pub fn bin_frequencies(cfg: &SpectrumConfig) -> (freqs: Vec<u32>)
    requires
        cfg.valid(),
    ensures
        freqs@ == cfg.bin_freqs(),
{
    let half = cfg.window_len / 2;
    let mut freqs: Vec<u32> = Vec::new();
    let mut k: usize = 0;
    while k <= half
        invariant
            cfg.valid(),
            half == cfg.window_len / 2,
            k <= half + 1,
            freqs@ == cfg.bin_freqs_upto(k as int),
        decreases half + 1 - k,
    {
        proof {
            lemma_bin_freq_bound(*cfg, k as int);
            vstd::arithmetic::mul::lemma_mul_upper_bound(
                k as int,
                u64::MAX as int,
                cfg.sample_rate as int,
                u32::MAX as int,
            );
        }
        let scaled = (k as u128 * cfg.sample_rate as u128) / (cfg.window_len as u128);
        let f = scaled as u32;
        assert(f == cfg.spec_bin_freq(k as int));
        if cfg.freq_lo <= f && f <= cfg.freq_hi {
            freqs.push(f);
        }
        k = k + 1;
    }
    freqs
}

/// One slot of a spectrum frame: a fixed bin frequency in Hz and the
/// magnitude measured there for the current window, in the caller's fixed
/// magnitude unit.
#[derive(Clone, Copy, Debug, PartialEq, Eq, Structural)]
pub struct Bin {
    /// Bin center frequency in Hz, fixed for the run.
    pub freq: u32,
    /// Magnitude measured at this bin for the current window.
    pub magnitude: u64,
}

/// One spectral frame: the ordered (frequency, magnitude) pairs produced by
/// one transform pass, restricted to the configured frequency range.
pub struct SpectrumFrame {
    /// The bins in ascending frequency order.
    pub bins: Vec<Bin>,
}

impl SpectrumFrame {
    /// The frame's frequencies, in order.
    pub open spec fn freqs(self) -> Seq<u32> {
        self.bins@.map_values(|b: Bin| b.freq)
    }

    /// The frame's magnitudes, in order.
    pub open spec fn mags(self) -> Seq<u64> {
        self.bins@.map_values(|b: Bin| b.magnitude)
    }

    /// A frame belonging to a configuration: its frequencies are exactly the
    /// configuration's fixed bin layout.
    pub open spec fn wf(self, cfg: SpectrumConfig) -> bool {
        self.freqs() == cfg.bin_freqs()
    }
}

/// Bin stability: any two frames of the same configuration carry identical,
/// equal-length, identically-ordered frequency values; only the magnitudes
/// may differ.
pub proof fn lemma_bin_stability(cfg: SpectrumConfig, a: SpectrumFrame, b: SpectrumFrame)
    requires
        a.wf(cfg),
        b.wf(cfg),
    ensures
        a.freqs() == b.freqs(),
        a.bins@.len() == b.bins@.len(),
{
    assert(a.freqs().len() == a.bins@.len());
    assert(b.freqs().len() == b.bins@.len());
}

/// Assemble one spectrum frame from the magnitudes a transform pass measured,
/// pairing them positionally with the configuration's fixed bin layout.
/// Succeeds exactly when one magnitude was supplied per bin of the layout.
pub fn build_frame(cfg: &SpectrumConfig, mags: &Vec<u64>) -> (r: Option<SpectrumFrame>)
    requires
        cfg.valid(),
    ensures
        (r matches Some(f)) <==> mags@.len() == cfg.spec_bin_count(),
        r matches Some(f) ==> f.wf(*cfg) && f.mags() == mags@,
{
    let freqs = bin_frequencies(cfg);
    if mags.len() != freqs.len() {
        return None;
    }
    let mut bins: Vec<Bin> = Vec::new();
    let mut i: usize = 0;
    while i < freqs.len()
        invariant
            i <= freqs@.len(),
            mags@.len() == freqs@.len(),
            bins@.len() == i,
            forall|j: int|
                0 <= j < i ==> bins@[j] == (Bin { freq: freqs@[j], magnitude: mags@[j] }),
        decreases freqs@.len() - i,
    {
        bins.push(Bin { freq: freqs[i], magnitude: mags[i] });
        i = i + 1;
    }
    let frame = SpectrumFrame { bins };
    proof {
        assert(frame.freqs() =~= freqs@);
        assert(frame.mags() =~= mags@);
    }
    Some(frame)
}

} // verus!
