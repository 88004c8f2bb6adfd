//! The attack/decay/sustain/release amplitude envelope.

use crate::units::{lemma_ramp_between, ramp, ramp_level, UNIT};
use vstd::prelude::*;

verus! {

/// Microseconds in one second.
pub const MICROS_PER_SECOND: u64 = 1_000_000;

/// The phases an envelope runs through, in order. `Done` is terminal.
#[derive(Clone, Copy, Debug, PartialEq, Eq, Structural)]
pub enum ADSRPhase {
    Attack,
    Decay,
    Sustain,
    Release,
    Done,
}

/// Envelope parameters: three times in microseconds and the sustain level in
/// millionths of full gain.
#[derive(Clone, Copy, Debug)]
pub struct ADSREnvelope {
    /// Attack time in microseconds.
    pub attack: u32,
    /// Decay time in microseconds.
    pub decay: u32,
    /// Sustain level in millionths; values above one whole count as one whole.
    pub sustain: u32,
    /// Release time in microseconds.
    pub release: u32,
}

impl Default for ADSREnvelope {
    /// 10 ms attack, 100 ms decay, 0.8 sustain, 200 ms release.
    fn default() -> (r: Self)
        ensures
            r == (ADSREnvelope { attack: 10_000, decay: 100_000, sustain: 800_000, release: 200_000 }),
    {
        ADSREnvelope { attack: 10_000, decay: 100_000, sustain: 800_000, release: 200_000 }
    }
}

impl ADSREnvelope {
    /// The sustain level the envelope holds: `sustain`, capped at unity gain.
    pub open spec fn level(self) -> int {
        if self.sustain > UNIT {
            UNIT as int
        } else {
            self.sustain as int
        }
    }

    pub fn new(attack: u32, decay: u32, sustain: u32, release: u32) -> (r: Self)
        ensures
            r == (ADSREnvelope { attack, decay, sustain, release }),
    {
        ADSREnvelope { attack, decay, sustain, release }
    }

    /// 1 ms attack, 100 ms decay, 0.3 sustain, 50 ms release.
    pub fn percussive() -> (r: Self)
        ensures
            r == (ADSREnvelope { attack: 1_000, decay: 100_000, sustain: 300_000, release: 50_000 }),
    {
        ADSREnvelope { attack: 1_000, decay: 100_000, sustain: 300_000, release: 50_000 }
    }

    /// 300 ms attack, 200 ms decay, 0.7 sustain, 500 ms release.
    pub fn pad() -> (r: Self)
        ensures
            r == (ADSREnvelope { attack: 300_000, decay: 200_000, sustain: 700_000, release: 500_000 }),
    {
        ADSREnvelope { attack: 300_000, decay: 200_000, sustain: 700_000, release: 500_000 }
    }

    /// 1 ms attack, 300 ms decay, 0.1 sustain, 100 ms release.
    pub fn pluck() -> (r: Self)
        ensures
            r == (ADSREnvelope { attack: 1_000, decay: 300_000, sustain: 100_000, release: 100_000 }),
    {
        ADSREnvelope { attack: 1_000, decay: 300_000, sustain: 100_000, release: 100_000 }
    }

    /// The capped sustain level as a machine integer.
    pub fn sustain_level(&self) -> (r: u32)
        ensures
            r == self.level(),
            r <= UNIT,
    {
        if self.sustain > UNIT {
            UNIT
        } else {
            self.sustain
        }
    }
}

/// The elapsed share of a phase is `ticks / sample_rate` seconds out of
/// `micros / 1_000_000` seconds; this is the numerator of that ratio.
pub open spec fn progress_num(ticks: nat) -> nat {
    ticks * 1_000_000
}

/// The denominator that goes with [`progress_num`].
pub open spec fn progress_den(micros: nat, sample_rate: nat) -> nat {
    micros * sample_rate
}

/// Whether `ticks` frames at `sample_rate` cover a phase of `micros`
/// microseconds. A phase of no length, or one at rate zero, is covered at once.
pub open spec fn phase_over(ticks: nat, micros: nat, sample_rate: nat) -> bool {
    progress_num(ticks) >= progress_den(micros, sample_rate)
}

/// Computes [`progress_num`] for a count of rendered frames.
fn elapsed_share(ticks: u64) -> (num: u128)
    ensures
        num == progress_num(ticks as nat),
{
    assert(ticks * 1_000_000 <= 0xffff_ffff_ffff_ffff * 1_000_000) by (nonlinear_arith)
        requires
            0 <= ticks <= 0xffff_ffff_ffff_ffff,
    ;
    ticks as u128 * MICROS_PER_SECOND as u128
}

/// Computes [`progress_den`] for a phase length and a sample rate.
fn phase_span(micros: u32, sample_rate: u32) -> (den: u64)
    ensures
        den == progress_den(micros as nat, sample_rate as nat),
{
    assert(micros * sample_rate <= 0xffff_ffff * 0xffff_ffff) by (nonlinear_arith)
        requires
            0 <= micros <= 0xffff_ffff,
            0 <= sample_rate <= 0xffff_ffff,
    ;
    micros as u64 * sample_rate as u64
}

/// The runtime state of one envelope. `elapsed` counts the frames rendered in
/// the current phase.
#[derive(Clone, Copy, Debug)]
pub struct EnvelopeState {
    pub phase: ADSRPhase,
    pub elapsed: u64,
    pub gate_open: bool,
}

impl Default for EnvelopeState {
    fn default() -> (r: Self)
        ensures
            r == EnvelopeState::triggered(),
    {
        EnvelopeState { phase: ADSRPhase::Attack, elapsed: 0, gate_open: true }
    }
}

impl EnvelopeState {
    /// The state of a note that has just been struck.
    pub open spec fn triggered() -> EnvelopeState {
        EnvelopeState { phase: ADSRPhase::Attack, elapsed: 0, gate_open: true }
    }

    /// The state after the note is let go: the release phase from its start,
    /// unless the envelope has already run out.
    pub open spec fn released(self) -> EnvelopeState {
        if self.phase == ADSRPhase::Done {
            self
        } else {
            EnvelopeState { phase: ADSRPhase::Release, elapsed: 0, gate_open: false }
        }
    }

    /// `elapsed` after one more frame; it stops counting at the top of its range.
    pub open spec fn ticks(self) -> nat {
        if self.elapsed < u64::MAX {
            (self.elapsed + 1) as nat
        } else {
            u64::MAX as nat
        }
    }

    /// The gain that one tick at `sample_rate` yields from this state.
    pub open spec fn gain(self, adsr: ADSREnvelope, sample_rate: u32) -> int {
        let num = progress_num(self.ticks());
        match self.phase {
            ADSRPhase::Attack => ramp(
                0,
                UNIT as int,
                num,
                progress_den(adsr.attack as nat, sample_rate as nat),
            ),
            ADSRPhase::Decay => ramp(
                UNIT as int,
                adsr.level(),
                num,
                progress_den(adsr.decay as nat, sample_rate as nat),
            ),
            ADSRPhase::Sustain => adsr.level(),
            ADSRPhase::Release => ramp(
                adsr.level(),
                0,
                num,
                progress_den(adsr.release as nat, sample_rate as nat),
            ),
            ADSRPhase::Done => 0,
        }
    }

    /// The state that one tick at `sample_rate` leaves behind.
    ///
    /// A phase that the tick completes hands over to the next one with
    /// `elapsed` back at zero; a phase of length zero is skipped without
    /// resetting `elapsed`. Sustain ends only once the note is no longer held.
    pub open spec fn tick(self, adsr: ADSREnvelope, sample_rate: u32) -> EnvelopeState {
        let ticks = self.ticks();
        match self.phase {
            ADSRPhase::Attack => if adsr.attack == 0 {
                EnvelopeState { phase: ADSRPhase::Decay, elapsed: ticks as u64, ..self }
            } else if phase_over(ticks, adsr.attack as nat, sample_rate as nat) {
                EnvelopeState { phase: ADSRPhase::Decay, elapsed: 0, ..self }
            } else {
                EnvelopeState { elapsed: ticks as u64, ..self }
            },
            ADSRPhase::Decay => if adsr.decay == 0 {
                EnvelopeState { phase: ADSRPhase::Sustain, elapsed: ticks as u64, ..self }
            } else if phase_over(ticks, adsr.decay as nat, sample_rate as nat) {
                EnvelopeState { phase: ADSRPhase::Sustain, elapsed: 0, ..self }
            } else {
                EnvelopeState { elapsed: ticks as u64, ..self }
            },
            ADSRPhase::Sustain => if !self.gate_open {
                EnvelopeState { phase: ADSRPhase::Release, elapsed: 0, ..self }
            } else {
                EnvelopeState { elapsed: ticks as u64, ..self }
            },
            ADSRPhase::Release => if phase_over(ticks, adsr.release as nat, sample_rate as nat) {
                EnvelopeState { phase: ADSRPhase::Done, elapsed: ticks as u64, ..self }
            } else {
                EnvelopeState { elapsed: ticks as u64, ..self }
            },
            ADSRPhase::Done => self,
        }
    }

    /// The state after `n` ticks.
    pub open spec fn tick_n(self, adsr: ADSREnvelope, sample_rate: u32, n: nat) -> EnvelopeState
        decreases n,
    {
        if n == 0 {
            self
        } else {
            self.tick(adsr, sample_rate).tick_n(adsr, sample_rate, (n - 1) as nat)
        }
    }

    pub fn new() -> (r: Self)
        ensures
            r == EnvelopeState::triggered(),
    {
        EnvelopeState { phase: ADSRPhase::Attack, elapsed: 0, gate_open: true }
    }

    /// Strikes the note: attack from its start, with the note held.
    pub fn trigger(&mut self)
        ensures
            *final(self) == EnvelopeState::triggered(),
    {
        self.phase = ADSRPhase::Attack;
        self.elapsed = 0;
        self.gate_open = true;
    }

    /// Lets the note go. On an envelope that is `Done` nothing changes.
    pub fn release(&mut self)
        ensures
            *final(self) == old(self).released(),
            old(self).phase == ADSRPhase::Done ==> *final(self) == *old(self),
    {
        if self.phase != ADSRPhase::Done {
            self.phase = ADSRPhase::Release;
            self.elapsed = 0;
            self.gate_open = false;
        }
    }

    /// Advances the envelope by one frame at `sample_rate` and returns the gain
    /// of that frame, in millionths.
    pub fn get_gain(&mut self, adsr: &ADSREnvelope, sample_rate: u32) -> (gain: u32)
        ensures
            gain == old(self).gain(*adsr, sample_rate),
            *final(self) == old(self).tick(*adsr, sample_rate),
            gain <= UNIT,
    {
        if self.phase == ADSRPhase::Done {
            return 0;
        }
        let ticks: u64 = if self.elapsed < u64::MAX {
            self.elapsed + 1
        } else {
            u64::MAX
        };
        let num: u128 = elapsed_share(ticks);
        let level = adsr.sustain_level();
        match self.phase {
            ADSRPhase::Attack => {
                let den: u64 = phase_span(adsr.attack, sample_rate);
                proof {
                    lemma_ramp_between(0, UNIT as int, num as nat, den as nat);
                }
                let gain = ramp_level(0, UNIT, num, den);
                if adsr.attack == 0 {
                    self.phase = ADSRPhase::Decay;
                    self.elapsed = ticks;
                } else if num >= den as u128 {
                    self.phase = ADSRPhase::Decay;
                    self.elapsed = 0;
                } else {
                    self.elapsed = ticks;
                }
                gain
            },
            ADSRPhase::Decay => {
                let den: u64 = phase_span(adsr.decay, sample_rate);
                proof {
                    lemma_ramp_between(UNIT as int, level as int, num as nat, den as nat);
                }
                let gain = ramp_level(UNIT, level, num, den);
                if adsr.decay == 0 {
                    self.phase = ADSRPhase::Sustain;
                    self.elapsed = ticks;
                } else if num >= den as u128 {
                    self.phase = ADSRPhase::Sustain;
                    self.elapsed = 0;
                } else {
                    self.elapsed = ticks;
                }
                gain
            },
            ADSRPhase::Sustain => {
                if !self.gate_open {
                    self.phase = ADSRPhase::Release;
                    self.elapsed = 0;
                } else {
                    self.elapsed = ticks;
                }
                level
            },
            ADSRPhase::Release => {
                let den: u64 = phase_span(adsr.release, sample_rate);
                proof {
                    lemma_ramp_between(level as int, 0, num as nat, den as nat);
                }
                let gain = ramp_level(level, 0, num, den);
                self.elapsed = ticks;
                if num >= den as u128 {
                    self.phase = ADSRPhase::Done;
                }
                gain
            },
            ADSRPhase::Done => 0,
        }
    }

    pub fn is_done(&self) -> (r: bool)
        ensures
            r == (self.phase == ADSRPhase::Done),
    {
        self.phase == ADSRPhase::Done
    }
}

/// An envelope whose attack, decay and release times are all zero answers the
/// first tick after a trigger with full gain. Released after that tick, its
/// next tick is silent and ends it, and so is every tick that follows. With
/// `gate_open` merely cleared instead, it is `Done` after three more ticks, four
/// in all.
pub proof fn law_zero_times_collapse(adsr: ADSREnvelope, sample_rate: u32)
    requires
        adsr.attack == 0,
        adsr.decay == 0,
        adsr.release == 0,
    ensures
        EnvelopeState::triggered().gain(adsr, sample_rate) == UNIT,
        EnvelopeState::triggered().tick(adsr, sample_rate).phase == ADSRPhase::Decay,
        EnvelopeState::triggered().tick(adsr, sample_rate).released().gain(adsr, sample_rate) == 0,
        EnvelopeState::triggered().tick(adsr, sample_rate).released().tick(adsr, sample_rate).phase
            == ADSRPhase::Done,
        EnvelopeState::triggered().tick(adsr, sample_rate).released().tick(adsr, sample_rate).gain(
            adsr,
            sample_rate,
        ) == 0,
        (EnvelopeState {
            gate_open: false,
            ..EnvelopeState::triggered().tick(adsr, sample_rate)
        }).tick_n(adsr, sample_rate, 3).phase == ADSRPhase::Done,
{
    let struck = EnvelopeState::triggered();
    let first = struck.tick(adsr, sample_rate);
    assert(progress_den(0, sample_rate as nat) == 0) by (nonlinear_arith);
    let closed = EnvelopeState { gate_open: false, ..first };
    let second = closed.tick(adsr, sample_rate);
    let third = second.tick(adsr, sample_rate);
    let fourth = third.tick(adsr, sample_rate);
    assert(second.phase == ADSRPhase::Sustain);
    assert(third.phase == ADSRPhase::Release);
    assert(fourth.phase == ADSRPhase::Done);
    assert(fourth.tick_n(adsr, sample_rate, 0) == fourth);
    assert(third.tick_n(adsr, sample_rate, 1) == fourth);
    assert(second.tick_n(adsr, sample_rate, 2) == fourth);
    assert(closed.tick_n(adsr, sample_rate, 3) == fourth);
}

/// While the note is held, an envelope that has reached its sustain phase, or
/// that is in its decay phase with the decay time used up, yields exactly the
/// sustain level on every tick, however many follow.
pub proof fn law_sustain_is_steady(
    state: EnvelopeState,
    adsr: ADSREnvelope,
    sample_rate: u32,
    n: nat,
)
    requires
        state.gate_open,
        state.phase == ADSRPhase::Sustain || (state.phase == ADSRPhase::Decay && phase_over(
            state.ticks(),
            adsr.decay as nat,
            sample_rate as nat,
        )),
    ensures
        state.tick_n(adsr, sample_rate, n).gain(adsr, sample_rate) == adsr.level(),
        adsr.sustain <= UNIT ==> state.tick_n(adsr, sample_rate, n).gain(adsr, sample_rate)
            == adsr.sustain,
        state.tick_n(adsr, sample_rate, n).gate_open,
        n > 0 ==> state.tick_n(adsr, sample_rate, n).phase == ADSRPhase::Sustain,
    decreases n,
{
    if state.phase == ADSRPhase::Decay {
        assert(adsr.decay == 0 ==> progress_den(adsr.decay as nat, sample_rate as nat) == 0)
            by (nonlinear_arith);
    }
    if n > 0 {
        let next = state.tick(adsr, sample_rate);
        assert(next.phase == ADSRPhase::Sustain);
        law_sustain_is_steady(next, adsr, sample_rate, (n - 1) as nat);
    }
}

/// `Done` is terminal: no number of ticks changes a finished envelope, and
/// each of them yields silence.
pub proof fn law_done_is_terminal(
    state: EnvelopeState,
    adsr: ADSREnvelope,
    sample_rate: u32,
    n: nat,
)
    requires
        state.phase == ADSRPhase::Done,
    ensures
        state.tick_n(adsr, sample_rate, n) == state,
        state.gain(adsr, sample_rate) == 0,
        state.released() == state,
    decreases n,
{
    if n > 0 {
        law_done_is_terminal(state, adsr, sample_rate, (n - 1) as nat);
    }
}

/// Every gain an envelope yields lies between silence and unity.
pub proof fn law_gain_in_range(state: EnvelopeState, adsr: ADSREnvelope, sample_rate: u32)
    ensures
        0 <= state.gain(adsr, sample_rate) <= UNIT,
{
    let num = progress_num(state.ticks());
    lemma_ramp_between(0, UNIT as int, num, progress_den(adsr.attack as nat, sample_rate as nat));
    lemma_ramp_between(
        UNIT as int,
        adsr.level(),
        num,
        progress_den(adsr.decay as nat, sample_rate as nat),
    );
    lemma_ramp_between(adsr.level(), 0, num, progress_den(adsr.release as nat, sample_rate as nat));
}

} // verus!
