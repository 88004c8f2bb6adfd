//! One triggered sample in flight: a cursor into shared PCM and an envelope.

use crate::adsr::{ADSREnvelope, ADSRPhase, EnvelopeState};
use crate::units::{apply_gain, attenuate, ramp, ramp_sample, UNIT};
use std::sync::Arc;
use vstd::prelude::*;

verus! {

/// A fractional frame position: a whole frame index and millionths of a frame.
#[derive(Clone, Copy, Debug)]
pub struct FramePos {
    pub frame: usize,
    pub micro: u32,
}

impl FramePos {
    /// The position in millionths of a frame.
    pub open spec fn value(self) -> int {
        self.frame * UNIT + self.micro
    }

    /// The position that stands for `v` millionths of a frame.
    pub open spec fn from_value(v: int) -> FramePos {
        FramePos { frame: (v / (UNIT as int)) as usize, micro: (v % (UNIT as int)) as u32 }
    }

    /// The fraction is less than one frame.
    pub open spec fn wf(self) -> bool {
        self.micro < UNIT
    }

    /// The start of frame `frame`.
    pub fn at_frame(frame: usize) -> (r: Self)
        ensures
            r == (FramePos { frame, micro: 0 }),
            r.wf(),
            r.value() == frame * UNIT,
    {
        FramePos { frame, micro: 0 }
    }
}

/// Adding `sum` millionths to the start of frame `frame` moves the frame index
/// by the whole frames in `sum` and leaves the remainder as the fraction.
proof fn lemma_carry(frame: int, sum: int)
    requires
        0 <= frame,
        0 <= sum,
    ensures
        (frame * UNIT + sum) / (UNIT as int) == frame + sum / (UNIT as int),
        (frame * UNIT + sum) % (UNIT as int) == sum % (UNIT as int),
        frame * UNIT + sum == (frame + sum / (UNIT as int)) * UNIT + sum % (UNIT as int),
{
    let unit = UNIT as int;
    let carry = sum / unit;
    let rest = sum % unit;
    assert(frame * unit + sum == (frame + carry) * unit + rest) by (nonlinear_arith)
        requires
            sum == carry * unit + rest,
    ;
    vstd::arithmetic::div_mod::lemma_fundamental_div_mod_converse(
        frame * unit + sum,
        unit,
        frame + carry,
        rest,
    );
}

/// A position of `frame` whole frames and a fraction lies before the end of
/// `frames` frames exactly when its whole frames do.
proof fn lemma_whole_frames(frame: int, rest: int, frames: int)
    requires
        0 <= rest < UNIT,
    ensures
        frame * UNIT + rest < frames * UNIT <==> frame < frames,
{
    if frame < frames {
        assert(frame * UNIT + rest < frames * UNIT) by (nonlinear_arith)
            requires
                frame + 1 <= frames,
                rest < UNIT,
        ;
    } else {
        assert(frame * UNIT + rest >= frames * UNIT) by (nonlinear_arith)
            requires
                frame >= frames,
                0 <= rest,
        ;
    }
}

/// Hands out another owner of the same PCM buffer.
///
/// Calls `Arc::clone`, which the standard library documents as returning a
/// pointer to the same allocation; the contract says that the new pointer
/// holds the value the old one holds.
#[verifier::external_body]
pub(crate) fn share_pcm(pcm: &Arc<Vec<i32>>) -> (shared: Arc<Vec<i32>>)
    ensures
        shared == *pcm,
{
    Arc::clone(pcm)
}

/// A voice: interleaved PCM shared with its asset, a cursor that moves by
/// `speed` millionths of a frame per rendered frame, and an envelope.
pub struct Voice {
    pub pcm: Arc<Vec<i32>>,
    pub channels: usize,
    pub start_frame: usize,
    pub frame_pos: FramePos,
    pub speed: u32,
    pub adsr: ADSREnvelope,
    pub envelope: EnvelopeState,
}

impl Clone for Voice {
    /// A voice in the same state over the same PCM.
    fn clone(&self) -> (r: Self)
        ensures
            r == *self,
    {
        Voice {
            pcm: share_pcm(&self.pcm),
            channels: self.channels,
            start_frame: self.start_frame,
            frame_pos: self.frame_pos,
            speed: self.speed,
            adsr: self.adsr,
            envelope: self.envelope,
        }
    }
}

impl Voice {
    /// The number of whole frames in the PCM; none when there are no channels.
    pub open spec fn frames(self) -> nat {
        if self.channels == 0 {
            0
        } else {
            self.pcm@.len() / (self.channels as nat)
        }
    }

    /// The index of the last frame, `-1` when there is none.
    pub open spec fn last(self) -> int {
        self.frames() - 1
    }

    /// The cursor has reached the last frame, so no pair of frames is left to
    /// interpolate between. A voice without frames is exhausted from the start.
    pub open spec fn exhausted(self) -> bool {
        self.frame_pos.frame >= self.last()
    }

    /// The cursor stands on a frame of the source. A cursor past the last
    /// frame, and any cursor of a voice without frames, has nothing to read.
    pub open spec fn inside(self) -> bool {
        self.frame_pos.frame < self.frames()
    }

    /// The voice still yields frames: its envelope has not run out and its
    /// cursor stands on a frame of the source. A voice whose cursor stands
    /// past its source adds nothing and is finished by its next render.
    pub open spec fn sounding(self) -> bool {
        self.envelope.phase != ADSRPhase::Done && self.inside()
    }

    /// The cursor's fraction is less than one frame, and the PCM is no longer
    /// than a buffer in memory can be.
    pub open spec fn wf(self) -> bool {
        &&& self.frame_pos.wf()
        &&& self.pcm@.len() <= usize::MAX
    }

    /// The sample of `channel` in frame `frame`.
    pub open spec fn sample(self, frame: int, channel: int) -> int {
        self.pcm@[frame * self.channels + channel] as int
    }

    /// The envelope as the next render sees it: an exhausted voice whose note
    /// is still held starts its release.
    pub open spec fn gated(self) -> EnvelopeState {
        if self.exhausted() && self.envelope.gate_open {
            self.envelope.released()
        } else {
            self.envelope
        }
    }

    /// The frame below the cursor: the frame the cursor stands on.
    pub open spec fn lower(self) -> int {
        self.frame_pos.frame as int
    }

    /// The frame above the cursor, held at the last frame.
    pub open spec fn upper(self) -> int {
        if self.lower() < self.last() {
            self.lower() + 1
        } else {
            self.last()
        }
    }

    /// The source channel that feeds output channel `out_channel`: the same
    /// index, held at the last source channel.
    pub open spec fn source_channel(self, out_channel: int) -> int {
        if out_channel < self.channels {
            out_channel
        } else {
            self.channels - 1
        }
    }

    /// The sample that the next render puts on output channel `out_channel`:
    /// the two frames around the cursor, interpolated at the cursor's
    /// fraction and scaled by the gain of this tick.
    pub open spec fn sample_out(self, sample_rate: u32, out_channel: int) -> int {
        let c = self.source_channel(out_channel);
        attenuate(
            ramp(
                self.sample(self.lower(), c),
                self.sample(self.upper(), c),
                self.frame_pos.micro as nat,
                UNIT as nat,
            ),
            self.gated().gain(self.adsr, sample_rate) as nat,
        )
    }

    /// The frame that the next render yields when the voice is sounding.
    pub open spec fn frame(self, sample_rate: u32, out_channels: usize) -> Seq<i32> {
        Seq::new(out_channels as nat, |c: int| self.sample_out(sample_rate, c) as i32)
    }

    /// The cursor after a render: moved on by `speed` wherever that keeps it
    /// inside the source, the fraction of a frame included. A step that would
    /// leave the source takes a cursor that has not reached the last frame to
    /// the start of the last frame, and leaves any other cursor where it is.
    pub open spec fn advanced(self) -> FramePos {
        if self.frame_pos.value() + self.speed < self.frames() * UNIT {
            FramePos::from_value(self.frame_pos.value() + self.speed)
        } else if !self.exhausted() {
            FramePos { frame: self.last() as usize, micro: 0 }
        } else {
            self.frame_pos
        }
    }

    /// The voice after one render.
    ///
    /// A finished voice stays as it is. A voice whose cursor stands past its
    /// source, as every cursor of a voice without frames does, is finished on
    /// the spot. Otherwise the envelope moves one tick and the cursor advances.
    pub open spec fn rendered(self, sample_rate: u32) -> Voice {
        if self.envelope.phase == ADSRPhase::Done {
            self
        } else if !self.inside() {
            Voice { envelope: EnvelopeState { phase: ADSRPhase::Done, ..self.envelope }, ..self }
        } else {
            Voice {
                envelope: self.gated().tick(self.adsr, sample_rate),
                frame_pos: self.advanced(),
                ..self
            }
        }
    }

    /// The voice after `n` renders.
    pub open spec fn rendered_n(self, sample_rate: u32, n: nat) -> Voice
        decreases n,
    {
        if n == 0 {
            self
        } else {
            self.rendered_n(sample_rate, (n - 1) as nat).rendered(sample_rate)
        }
    }

    /// A voice over `pcm` that starts at `start_frame` with a freshly
    /// triggered envelope.
    pub fn new(
        pcm: Arc<Vec<i32>>,
        channels: usize,
        start_frame: usize,
        speed: u32,
        adsr: ADSREnvelope,
    ) -> (r: Self)
        ensures
            r == (Voice {
                pcm,
                channels,
                start_frame,
                frame_pos: FramePos { frame: start_frame, micro: 0 },
                speed,
                adsr,
                envelope: EnvelopeState::triggered(),
            }),
            r.wf(),
    {
        let _ = pcm.len();
        Voice {
            pcm,
            channels,
            start_frame,
            frame_pos: FramePos::at_frame(start_frame),
            speed,
            adsr,
            envelope: EnvelopeState::new(),
        }
    }

    pub fn trigger(&mut self)
        ensures
            *final(self) == (Voice { envelope: EnvelopeState::triggered(), ..*old(self) }),
    {
        self.envelope.trigger();
    }

    pub fn release(&mut self)
        ensures
            *final(self) == (Voice { envelope: old(self).envelope.released(), ..*old(self) }),
    {
        self.envelope.release();
    }

    /// The number of whole frames in the PCM.
    pub fn pcm_frames(&self) -> (n: usize)
        ensures
            n == self.frames(),
            n * self.channels <= self.pcm@.len() <= usize::MAX,
    {
        let len = self.pcm.len();
        if self.channels == 0 {
            0
        } else {
            proof {
                vstd::arithmetic::div_mod::lemma_fundamental_div_mod(
                    len as int,
                    self.channels as int,
                );
                vstd::arithmetic::div_mod::lemma_mod_bound(len as int, self.channels as int);
                vstd::arithmetic::mul::lemma_mul_is_commutative(
                    (len / self.channels) as int,
                    self.channels as int,
                );
            }
            len / self.channels
        }
    }

    /// Whether the cursor has reached the last frame.
    pub fn is_exhausted(&self) -> (r: bool)
        ensures
            r == self.exhausted(),
    {
        let frames = self.pcm_frames();
        frames == 0 || self.frame_pos.frame >= frames - 1
    }

    /// Renders one frame of `out_channels` samples, or `None` once the voice
    /// has finished.
    pub fn render(&mut self, sample_rate: u32, out_channels: usize) -> (frame: Option<Vec<i32>>)
        ensures
            *final(self) == old(self).rendered(sample_rate),
            frame.is_some() == old(self).sounding(),
            frame matches Some(samples) ==> samples@ == old(self).frame(sample_rate, out_channels),
    {
        if self.envelope.is_done() {
            return None;
        }
        let frames = self.pcm_frames();
        if self.frame_pos.frame >= frames {
            self.envelope.phase = ADSRPhase::Done;
            return None;
        }
        let last: usize = frames - 1;
        let exhausted = self.frame_pos.frame >= last;
        if exhausted && self.envelope.gate_open {
            self.envelope.release();
        }
        let lower: usize = self.frame_pos.frame;
        let upper: usize = if lower < last {
            lower + 1
        } else {
            last
        };
        let adsr = self.adsr;
        let gain = self.envelope.get_gain(&adsr, sample_rate);
        let channels = self.channels;
        let micro = self.frame_pos.micro;
        assert(0 <= lower * channels && lower * channels + channels <= frames * channels && 0
            <= upper * channels && upper * channels + channels <= frames * channels)
            by (nonlinear_arith)
            requires
                0 <= lower <= upper < frames,
                0 < channels,
        ;
        let lower_base: usize = lower * channels;
        let upper_base: usize = upper * channels;
        let ghost ticked = *self;
        let mut samples: Vec<i32> = Vec::with_capacity(out_channels);
        let mut c: usize = 0;
        while c < out_channels
            invariant
                c <= out_channels,
                *self == ticked,
                0 < channels,
                channels == self.channels,
                self.pcm == old(self).pcm,
                lower_base == lower * channels,
                upper_base == upper * channels,
                lower_base + channels <= self.pcm@.len() <= usize::MAX,
                upper_base + channels <= self.pcm@.len(),
                lower == old(self).lower(),
                upper == old(self).upper(),
                micro == old(self).frame_pos.micro,
                gain == old(self).gated().gain(old(self).adsr, sample_rate),
                channels == old(self).channels,
                samples@.len() == c,
                forall|k: int|
                    0 <= k < c ==> samples@[k] == old(self).sample_out(sample_rate, k),
            decreases out_channels - c,
        {
            let source: usize = if c < channels {
                c
            } else {
                channels - 1
            };
            let below = self.pcm[lower_base + source];
            let above = self.pcm[upper_base + source];
            let mixed = ramp_sample(below, above, micro as u128, UNIT as u64);
            samples.push(apply_gain(mixed, gain));
            c += 1;
        }
        let sum: u64 = micro as u64 + self.speed as u64;
        let carry: usize = (sum / (UNIT as u64)) as usize;
        let rest: u32 = (sum % (UNIT as u64)) as u32;
        let frame: usize = self.frame_pos.frame;
        proof {
            lemma_carry(frame as int, sum as int);
            lemma_whole_frames(frame + carry, rest as int, frames as int);
        }
        if frame < frames && carry < frames - frame {
            self.frame_pos = FramePos { frame: frame + carry, micro: rest };
        } else if !exhausted {
            self.frame_pos = FramePos { frame: last, micro: 0 };
        }
        assert(samples@ =~= old(self).frame(sample_rate, out_channels));
        Some(samples)
    }

    /// Whether the envelope has run out.
    pub fn is_finished(&self) -> (r: bool)
        ensures
            r == (self.envelope.phase == ADSRPhase::Done),
            r ==> !self.sounding(),
    {
        self.envelope.is_done()
    }
}

/// A render never moves the cursor backwards, whatever the speed. It moves
/// the cursor on by exactly `speed`, fraction included, whenever that keeps
/// the cursor inside the source, and a cursor inside the source stays inside.
pub proof fn law_cursor_never_retreats(voice: Voice, sample_rate: u32)
    requires
        voice.wf(),
    ensures
        voice.rendered(sample_rate).frame_pos.value() >= voice.frame_pos.value(),
        voice.rendered(sample_rate).wf(),
        voice.sounding() && voice.frame_pos.value() + voice.speed < voice.frames() * UNIT
            ==> voice.rendered(sample_rate).frame_pos.value() == voice.frame_pos.value()
            + voice.speed,
        !voice.sounding() ==> voice.rendered(sample_rate).frame_pos == voice.frame_pos,
        voice.frame_pos.value() < voice.frames() * UNIT ==> voice.rendered(
            sample_rate,
        ).frame_pos.value() < voice.frames() * UNIT,
{
    if voice.sounding() {
        let frame = voice.frame_pos.frame as int;
        let sum = voice.frame_pos.micro + voice.speed;
        let carried = frame + sum / (UNIT as int);
        lemma_carry(frame, sum);
        lemma_whole_frames(carried, sum % (UNIT as int), voice.frames() as int);
        lemma_whole_frames(frame, voice.frame_pos.micro as int, voice.last());
        lemma_whole_frames(voice.last(), 0, voice.frames() as int);
        assert(voice.frames() <= voice.pcm@.len()) by {
            vstd::arithmetic::div_mod::lemma_div_is_ordered_by_denominator(
                voice.pcm@.len() as int,
                1,
                voice.channels as int,
            );
        }
    }
}

/// The cursor is monotonic over any number of renders.
pub proof fn law_cursor_is_monotonic(voice: Voice, sample_rate: u32, n: nat)
    requires
        voice.wf(),
    ensures
        voice.rendered_n(sample_rate, n).frame_pos.value() >= voice.frame_pos.value(),
        voice.rendered_n(sample_rate, n).wf(),
    decreases n,
{
    if n > 0 {
        law_cursor_is_monotonic(voice, sample_rate, (n - 1) as nat);
        law_cursor_never_retreats(voice.rendered_n(sample_rate, (n - 1) as nat), sample_rate);
    }
}

/// A voice that has stopped sounding never sounds again: once a render has
/// yielded nothing, so does every later one.
pub proof fn law_silence_is_final(voice: Voice, sample_rate: u32, n: nat)
    requires
        !voice.sounding(),
    ensures
        !voice.rendered_n(sample_rate, n).sounding(),
        n > 0 ==> voice.rendered_n(sample_rate, n).envelope.phase == ADSRPhase::Done,
    decreases n,
{
    if n > 0 {
        let before = voice.rendered_n(sample_rate, (n - 1) as nat);
        law_silence_is_final(voice, sample_rate, (n - 1) as nat);
        assert(before.rendered(sample_rate).frames() == before.frames());
    }
}

/// Every rendered sample fits the sample type.
pub proof fn lemma_sample_out_fits(voice: Voice, sample_rate: u32, out_channel: int)
    ensures
        i32::MIN <= voice.sample_out(sample_rate, out_channel) <= i32::MAX,
{
    law_output_is_interpolated(voice, sample_rate, out_channel);
}

/// Every rendered sample is the interpolated source sample scaled down: at
/// unity gain it is the interpolated sample itself, it never exceeds that
/// sample in magnitude, and the interpolated sample lies between the two
/// source samples around the cursor.
pub proof fn law_output_is_interpolated(voice: Voice, sample_rate: u32, out_channel: int)
    ensures
        ({
            let c = voice.source_channel(out_channel);
            let below = voice.sample(voice.lower(), c);
            let above = voice.sample(voice.upper(), c);
            let between = ramp(below, above, voice.frame_pos.micro as nat, UNIT as nat);
            let out = voice.sample_out(sample_rate, out_channel);
            &&& (below <= between <= above || above <= between <= below)
            &&& voice.gated().gain(voice.adsr, sample_rate) == UNIT ==> out == between
            &&& (0 <= out <= between || between <= out <= 0)
            &&& voice.frame_pos.micro == 0 ==> between == below
        }),
{
    let c = voice.source_channel(out_channel);
    let below = voice.sample(voice.lower(), c);
    let above = voice.sample(voice.upper(), c);
    crate::units::lemma_ramp_between(below, above, voice.frame_pos.micro as nat, UNIT as nat);
    crate::adsr::law_gain_in_range(voice.gated(), voice.adsr, sample_rate);
    crate::units::lemma_attenuate_bounded(
        ramp(below, above, voice.frame_pos.micro as nat, UNIT as nat),
        voice.gated().gain(voice.adsr, sample_rate) as nat,
    );
}

} // verus!
