//! Decay smoother: one persistent magnitude per frequency bin, updated in
//! place every frame with a peak-hold filter — a new magnitude at or above
//! the stored value replaces it instantly, anything lower lets the stored
//! value decay by a fixed multiplicative factor.

use vstd::prelude::*;
use vstd::arithmetic::div_mod::{lemma_div_is_ordered, lemma_div_multiples_vanish};

verus! {

/// Numerator of the shared decay factor applied on release.
pub const DECAY_NUMER: u64 = 98;

/// Denominator of the shared decay factor applied on release.
pub const DECAY_DENOM: u64 = 100;

/// One release step: the stored magnitude multiplied by the decay factor,
/// rounded down.
pub open spec fn decay_spec(v: u64) -> u64 {
    ((v * DECAY_NUMER) / (DECAY_DENOM as int)) as u64
}

/// A release step never increases a magnitude.
pub proof fn lemma_decay_le(v: u64)
    ensures
        decay_spec(v) <= v,
{
    lemma_div_is_ordered(v * DECAY_NUMER, v * DECAY_DENOM, DECAY_DENOM as int);
    lemma_div_multiples_vanish(v as int, DECAY_DENOM as int);
    assert(v * DECAY_DENOM == DECAY_DENOM * v);
}

/// Bounded decay: a positive magnitude strictly decreases on release and a
/// zero magnitude stays zero, yet any stored value of at least two survives
/// one release step positive — only the last unit of magnitude is rounded
/// away to zero.
pub proof fn lemma_decay_strict(v: u64)
    ensures
        v > 0 ==> decay_spec(v) < v,
        v == 0 ==> decay_spec(v) == 0,
        v >= 2 ==> decay_spec(v) >= 1,
{
    if v >= 2 {
        assert(v * DECAY_NUMER >= 196) by (nonlinear_arith)
            requires
                v >= 2,
        ;
        lemma_div_is_ordered(196, v * DECAY_NUMER, DECAY_DENOM as int);
    }
    if v > 0 {
        assert(v * DECAY_NUMER <= v * DECAY_DENOM - v) by (nonlinear_arith);
        assert(v * DECAY_DENOM - v <= DECAY_DENOM * (v - 1) + (DECAY_DENOM - 1)) by (
        nonlinear_arith)
            requires
                v >= 1,
        ;
        lemma_div_is_ordered(
            v * DECAY_NUMER,
            DECAY_DENOM * (v - 1) + (DECAY_DENOM - 1),
            DECAY_DENOM as int,
        );
        vstd::arithmetic::div_mod::lemma_div_multiples_vanish_fancy(
            v - 1,
            DECAY_DENOM - 1,
            DECAY_DENOM as int,
        );
        vstd::arithmetic::div_mod::lemma_div_pos_is_pos(v * DECAY_NUMER, DECAY_DENOM as int);
        assert(v * DECAY_NUMER >= 0) by (nonlinear_arith);
    }
}

/// The magnitude stored at one bin after an update: instant attack on a new
/// peak, one release step otherwise.
pub open spec fn smooth_step(stored: u64, incoming: u64) -> u64 {
    if incoming >= stored {
        incoming
    } else {
        decay_spec(stored)
    }
}

/// The stored magnitude after `n` release steps from `v`.
pub open spec fn decay_iter(v: u64, n: nat) -> u64
    decreases n,
{
    if n == 0 {
        v
    } else {
        decay_spec(decay_iter(v, (n - 1) as nat))
    }
}

/// Feeding an all-zero magnitude at a bin repeatedly drives the stored value
/// down monotonically, it never goes below zero, and once zero it stays
/// exactly zero. An all-zero update is one release step on a positive stored
/// value; on a zero stored value attack and release agree on zero.
pub proof fn lemma_zero_input_monotone(v: u64, n: nat)
    ensures
        smooth_step(v, 0) == if v == 0 { 0u64 } else { decay_spec(v) },
        decay_iter(v, n + 1) <= decay_iter(v, n),
        decay_iter(v, n) >= 0,
        v == 0 ==> decay_iter(v, n) == 0,
    decreases n,
{
    lemma_decay_strict(v);
    lemma_decay_le(decay_iter(v, n));
    if n > 0 {
        lemma_zero_input_monotone(v, (n - 1) as nat);
    }
}

/// The persistent per-bin magnitude state, zero-initialized once at startup
/// and then mutated in place every frame for the lifetime of the stream
/// loop. It is never reset: it is the display's visual memory.
pub struct SmoothedState {
    /// One stored magnitude per frequency bin of the fixed layout.
    pub values: Vec<u64>,
}

impl SmoothedState {
    /// How many bins this state tracks.
    pub open spec fn spec_len(self) -> nat {
        self.values@.len()
    }

    /// A fresh all-zero state with one slot per frequency bin.
    pub fn new(bin_count: usize) -> (s: Self)
        ensures
            s.values@ == Seq::new(bin_count as nat, |i: int| 0u64),
    {
        let mut values: Vec<u64> = Vec::new();
        let mut i: usize = 0;
        while i < bin_count
            invariant
                i <= bin_count,
                values@ == Seq::new(i as nat, |j: int| 0u64),
            decreases bin_count - i,
        {
            values.push(0);
            proof {
                assert(values@ =~= Seq::new((i + 1) as nat, |j: int| 0u64));
            }
            i = i + 1;
        }
        SmoothedState { values }
    }

    /// Fold the latest magnitudes into the state, bin by bin: a magnitude at
    /// or above the stored value replaces it exactly (instant peak attack,
    /// no decay applied); a lower magnitude leaves the stored value decayed
    /// by exactly the fixed factor (exponential release).
    pub fn update(&mut self, mags: &Vec<u64>)
        requires
            old(self).spec_len() == mags@.len(),
        ensures
            final(self).spec_len() == old(self).spec_len(),
            forall|i: int|
                0 <= i < final(self).spec_len() ==> final(self).values@[i] == smooth_step(
                    old(self).values@[i],
                    mags@[i],
                ),
    {
        let n = self.values.len();
        let mut i: usize = 0;
        while i < n
            invariant
                n == self.spec_len() == mags@.len(),
                i <= n,
                forall|j: int|
                    i <= j < n ==> self.values@[j] == old(self).values@[j],
                forall|j: int|
                    0 <= j < i ==> self.values@[j] == smooth_step(old(self).values@[j], mags@[j]),
            decreases n - i,
        {
            let stored = self.values[i];
            let incoming = mags[i];
            if incoming >= stored {
                self.values.set(i, incoming);
            } else {
                let decayed = ((stored as u128 * DECAY_NUMER as u128) / (DECAY_DENOM
                    as u128)) as u64;
                proof {
                    lemma_decay_le(stored);
                    assert(stored as u128 * DECAY_NUMER as u128 == stored * DECAY_NUMER);
                }
                self.values.set(i, decayed);
            }
            i = i + 1;
        }
    }
}

} // verus!
