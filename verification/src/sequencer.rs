//! The step sequencer: a clock that advances sixteen steps at a tempo, and the
//! voices that each step triggers.

use crate::adsr::ADSREnvelope;
use crate::audio::{AudioAsset, WaveformAnalysis};
use crate::playback::frame_of;
use crate::samples::{MarkView, SampleMark};
use crate::units::UNIT;
use crate::voice::{share_pcm, Voice};
use std::sync::Arc;
use vstd::prelude::*;

verus! {

/// The number of steps in a pattern.
pub const NUM_STEPS: usize = 16;

/// A step lasts a quarter of a beat: `60 / bpm / 4` seconds, which is this
/// many microseconds divided by the tempo in beats per minute.
pub const STEP_MICROS_PER_BPM: u64 = 15_000_000;

/// The sequencer's clock. Times are microseconds on a clock that never runs
/// backwards.
#[derive(Clone, Copy, Debug)]
pub struct StepClock {
    /// The tempo in beats per minute.
    pub bpm: u32,
    pub playing: bool,
    /// The step that the next advance plays.
    pub current_step: usize,
    /// When the clock last advanced, if it has since it was started.
    pub last_step_time: Option<u64>,
}

impl StepClock {
    /// The time from the last advance to `now`; none if `now` lies before it.
    pub open spec fn since_last(self, now: u64) -> int {
        match self.last_step_time {
            Some(last) => if now >= last {
                now - last
            } else {
                0
            },
            None => 0,
        }
    }

    /// A step's length has passed since the last advance, or the clock has
    /// not advanced yet. The test `since * bpm >= 15_000_000` is the test
    /// `since >= 60 / bpm / 4` seconds without rounding.
    pub open spec fn interval_elapsed(self, now: u64) -> bool {
        self.last_step_time is None || self.since_last(now) * self.bpm >= STEP_MICROS_PER_BPM
    }

    /// The clock advances at `now`.
    pub open spec fn due(self, now: u64) -> bool {
        self.playing && self.interval_elapsed(now)
    }

    /// The step that the next advance plays, within the pattern.
    pub open spec fn step(self) -> usize {
        self.current_step % NUM_STEPS
    }

    /// The clock after a tick at `now`: one step on if it was due, else
    /// unchanged.
    pub open spec fn ticked(self, now: u64) -> StepClock {
        if self.due(now) {
            StepClock {
                current_step: ((self.step() + 1) % (NUM_STEPS as int)) as usize,
                last_step_time: Some(now),
                ..self
            }
        } else {
            self
        }
    }

    /// A clock at rest at 120 beats per minute.
    pub fn new() -> (r: Self)
        ensures
            r == (StepClock { bpm: 120, playing: false, current_step: 0, last_step_time: None }),
    {
        StepClock { bpm: 120, playing: false, current_step: 0, last_step_time: None }
    }

    /// Starts the clock at step 0; its first tick advances at once.
    pub fn start(&mut self)
        ensures
            *final(self) == (StepClock {
                playing: true,
                current_step: 0,
                last_step_time: None,
                ..*old(self)
            }),
    {
        self.current_step = 0;
        self.last_step_time = None;
        self.playing = true;
    }

    /// Stops the clock and goes back to step 0.
    pub fn stop(&mut self)
        ensures
            *final(self) == (StepClock { playing: false, current_step: 0, ..*old(self) }),
    {
        self.playing = false;
        self.current_step = 0;
    }

    /// Ticks the clock at `now`. Returns the step to play if the clock
    /// advanced.
    pub fn tick(&mut self, now: u64) -> (fired: Option<usize>)
        ensures
            *final(self) == old(self).ticked(now),
            fired == if old(self).due(now) {
                Some(old(self).step())
            } else {
                None
            },
            fired matches Some(step) ==> step < NUM_STEPS,
    {
        if !self.playing {
            return None;
        }
        let elapsed = match self.last_step_time {
            None => true,
            Some(last) => {
                let since: u64 = if now >= last {
                    now - last
                } else {
                    0
                };
                assert(since * self.bpm <= 0xffff_ffff_ffff_ffff * 0xffff_ffff) by (nonlinear_arith)
                    requires
                        0 <= since <= 0xffff_ffff_ffff_ffff,
                        0 <= self.bpm <= 0xffff_ffff,
                ;
                since as u128 * self.bpm as u128 >= STEP_MICROS_PER_BPM as u128
            },
        };
        if !elapsed {
            return None;
        }
        let step = self.current_step % NUM_STEPS;
        self.last_step_time = Some(now);
        self.current_step = (step + 1) % NUM_STEPS;
        Some(step)
    }
}

/// A clock that is not yet due stays as it is: ticking before a step's length
/// has passed since the last advance changes neither the step nor the time
/// of the last advance. At 120 beats per minute a step lasts 125 000
/// microseconds.
pub proof fn law_tick_waits_for_the_interval(clock: StepClock, now: u64)
    requires
        clock.last_step_time matches Some(last) && clock.since_last(now) * clock.bpm
            < STEP_MICROS_PER_BPM,
    ensures
        clock.ticked(now) == clock,
        !clock.due(now),
{
}

/// At 120 beats per minute the clock is due exactly when 125 000 microseconds
/// have passed since the last advance.
pub proof fn law_step_length_at_120(clock: StepClock, now: u64)
    requires
        clock.bpm == 120,
        clock.playing,
        clock.last_step_time is Some,
    ensures
        clock.due(now) <==> clock.since_last(now) >= 125_000,
{
}

/// A tick advances by one step at most, however long the clock was left
/// alone: a due clock moves to the next step of the pattern, remembers `now`
/// as the time of that advance, and is not due again at `now`.
pub proof fn law_tick_advances_once(clock: StepClock, now: u64)
    requires
        clock.due(now),
    ensures
        clock.ticked(now).current_step == (clock.step() + 1) % (NUM_STEPS as int),
        clock.ticked(now).last_step_time == Some(now),
        !clock.ticked(now).due(now),
        clock.ticked(now).ticked(now) == clock.ticked(now),
{
    let after = clock.ticked(now);
    assert(after.since_last(now) == 0);
    assert(after.since_last(now) * after.bpm == 0) by (nonlinear_arith)
        requires
            after.since_last(now) == 0,
    ;
}

/// A voice to trigger: shared PCM, where to start in it, how fast to play it
/// and the envelope to shape it with.
pub struct VoiceEvent {
    pub pcm: Arc<Vec<i32>>,
    pub channels: usize,
    pub start_frame: usize,
    pub speed: u32,
    pub adsr: ADSREnvelope,
}

impl VoiceEvent {
    /// The voice that this event triggers.
    pub open spec fn voice(self) -> Voice {
        Voice {
            pcm: self.pcm,
            channels: self.channels,
            start_frame: self.start_frame,
            frame_pos: crate::voice::FramePos { frame: self.start_frame, micro: 0 },
            speed: self.speed,
            adsr: self.adsr,
            envelope: crate::adsr::EnvelopeState::triggered(),
        }
    }

    /// Turns the event into its voice.
    pub fn into_voice(self) -> (r: Voice)
        ensures
            r == self.voice(),
    {
        Voice::new(self.pcm, self.channels, self.start_frame, self.speed, self.adsr)
    }
}

/// One sample of its own as a row of the sequencer.
pub struct DrumTrack {
    pub asset: AudioAsset,
    pub waveform: Option<WaveformAnalysis>,
    pub steps: [bool; 16],
    pub muted: bool,
    pub envelope: ADSREnvelope,
}

impl DrumTrack {
    /// A track with no step set, not muted, with the default envelope.
    pub fn new(asset: AudioAsset, waveform: Option<WaveformAnalysis>) -> (r: Self)
        ensures
            r.asset == asset,
            r.waveform == waveform,
            forall|i: int| 0 <= i < NUM_STEPS ==> !r.steps@[i],
            !r.muted,
            r.envelope == (ADSREnvelope {
                attack: 10_000,
                decay: 100_000,
                sustain: 800_000,
                release: 200_000,
            }),
    {
        DrumTrack {
            asset,
            waveform,
            steps: [
                false,
                false,
                false,
                false,
                false,
                false,
                false,
                false,
                false,
                false,
                false,
                false,
                false,
                false,
                false,
                false,
            ],
            muted: false,
            envelope: ADSREnvelope::new(10_000, 100_000, 800_000, 200_000),
        }
    }
}

/// The number of frames in an asset's PCM; a channel count of zero counts as one.
pub open spec fn asset_frames(asset: AudioAsset) -> int {
    if asset.channels == 0 {
        asset.pcm@.len() as int
    } else {
        (asset.pcm@.len() as int) / (asset.channels as int)
    }
}

/// The frame at which a mark at `position` starts a voice in a PCM of
/// `frames` frames; positions past the end start at the end.
pub open spec fn start_frame_of(position: u32, frames: int) -> int {
    if position >= UNIT {
        frames
    } else {
        frame_of(position, frames)
    }
}

/// The envelope assigned to pad `pad`: the entry for it in `envelopes`, or
/// the default envelope where there is none.
pub open spec fn pad_envelope(envelopes: Seq<ADSREnvelope>, pad: usize) -> ADSREnvelope {
    if pad < envelopes.len() {
        envelopes[pad as int]
    } else {
        ADSREnvelope { attack: 10_000, decay: 100_000, sustain: 800_000, release: 200_000 }
    }
}

/// What pad `pad` triggers on `asset`: a voice at native speed from the mark
/// with that index, if there is one and it is set on this asset.
pub open spec fn pad_event(
    pad: usize,
    marks: Seq<MarkView>,
    asset: AudioAsset,
    envelopes: Seq<ADSREnvelope>,
) -> Option<VoiceEvent> {
    if pad < marks.len() && marks[pad as int].name == asset.file_name@ {
        Some(
            VoiceEvent {
                pcm: asset.pcm,
                channels: asset.channels as usize,
                start_frame: start_frame_of(marks[pad as int].position, asset_frames(asset)) as usize,
                speed: UNIT,
                adsr: pad_envelope(envelopes, pad),
            },
        )
    } else {
        None
    }
}

/// What the pads `pads` trigger, in their order.
pub open spec fn pad_events(
    pads: Seq<usize>,
    marks: Seq<MarkView>,
    asset: AudioAsset,
    envelopes: Seq<ADSREnvelope>,
) -> Seq<VoiceEvent>
    decreases pads.len(),
{
    if pads.len() == 0 {
        Seq::empty()
    } else {
        let before = pad_events(pads.drop_last(), marks, asset, envelopes);
        match pad_event(pads.last(), marks, asset, envelopes) {
            Some(event) => before.push(event),
            None => before,
        }
    }
}

/// What a drum track triggers at `step`: its sample from the start at native
/// speed, if the track is not muted and has the step set.
pub open spec fn drum_event(track: DrumTrack, step: usize) -> Option<VoiceEvent> {
    if !track.muted && step < NUM_STEPS && track.steps@[step as int] {
        Some(
            VoiceEvent {
                pcm: track.asset.pcm,
                channels: track.asset.channels as usize,
                start_frame: 0,
                speed: UNIT,
                adsr: track.envelope,
            },
        )
    } else {
        None
    }
}

/// What the drum tracks trigger at `step`, in their order.
pub open spec fn drum_events(tracks: Seq<DrumTrack>, step: usize) -> Seq<VoiceEvent>
    decreases tracks.len(),
{
    if tracks.len() == 0 {
        Seq::empty()
    } else {
        let before = drum_events(tracks.drop_last(), step);
        match drum_event(tracks.last(), step) {
            Some(event) => before.push(event),
            None => before,
        }
    }
}

/// The pads set at `step` of the grid; none for a step the grid does not have.
pub open spec fn pads_at(grid: Seq<Vec<usize>>, step: usize) -> Seq<usize> {
    if step < grid.len() {
        grid[step as int]@
    } else {
        Seq::empty()
    }
}

/// Everything that `step` triggers: the pads of the main asset, where one is
/// loaded, and then the drum tracks.
pub open spec fn step_events(
    step: usize,
    asset: Option<AudioAsset>,
    grid: Seq<Vec<usize>>,
    marks: Seq<MarkView>,
    envelopes: Seq<ADSREnvelope>,
    tracks: Seq<DrumTrack>,
) -> Seq<VoiceEvent> {
    let chops = match asset {
        Some(main) => pad_events(pads_at(grid, step), marks, main, envelopes),
        None => Seq::empty(),
    };
    chops + drum_events(tracks, step)
}

/// Computes [`start_frame_of`] for an asset.
fn start_frame(position: u32, asset: &AudioAsset) -> (frame: usize)
    ensures
        frame == start_frame_of(position, asset_frames(*asset)),
{
    let len = asset.pcm.len();
    let frames: usize = if asset.channels == 0 {
        len
    } else {
        len / (asset.channels as usize)
    };
    if position >= UNIT {
        frames
    } else {
        assert(position * frames <= 0xffff_ffff * 0xffff_ffff_ffff_ffff) by (nonlinear_arith)
            requires
                0 <= position <= 0xffff_ffff,
                0 <= frames <= 0xffff_ffff_ffff_ffff,
        ;
        proof {
            crate::units::lemma_part_bounded(frames as int, position as int, UNIT as int);
            vstd::arithmetic::mul::lemma_mul_is_commutative(frames as int, position as int);
        }
        ((position as u128 * frames as u128) / (UNIT as u128)) as usize
    }
}

/// Collects the voices that `step` triggers.
pub fn collect_events(
    step: usize,
    asset: &Option<AudioAsset>,
    grid: &Vec<Vec<usize>>,
    marks: &Vec<SampleMark>,
    envelopes: &Vec<ADSREnvelope>,
    tracks: &Vec<DrumTrack>,
) -> (events: Vec<VoiceEvent>)
    ensures
        events@ == step_events(
            step,
            *asset,
            grid@,
            crate::samples::mark_views(marks@),
            envelopes@,
            tracks@,
        ),
{
    let mut events: Vec<VoiceEvent> = Vec::new();
    let ghost views = crate::samples::mark_views(marks@);
    if let Some(main) = asset {
        if step < grid.len() {
            let pads = &grid[step];
            let mut i: usize = 0;
            assert(pads@.take(0) =~= Seq::<usize>::empty());
            while i < pads.len()
                invariant
                    i <= pads@.len(),
                    views == crate::samples::mark_views(marks@),
                    events@ == pad_events(pads@.take(i as int), views, *main, envelopes@),
                decreases pads@.len() - i,
            {
                let pad = pads[i];
                proof {
                    assert(pads@.take(i + 1).drop_last() =~= pads@.take(i as int));
                    assert(pads@.take(i + 1).last() == pad);
                }
                if pad < marks.len() {
                    let mark = &marks[pad];
                    assert(views[pad as int] == mark@);
                    if mark.sample_name == main.file_name {
                        let adsr = if pad < envelopes.len() {
                            envelopes[pad]
                        } else {
                            ADSREnvelope::new(10_000, 100_000, 800_000, 200_000)
                        };
                        events.push(
                            VoiceEvent {
                                pcm: share_pcm(&main.pcm),
                                channels: main.channels as usize,
                                start_frame: start_frame(mark.position, main),
                                speed: UNIT,
                                adsr,
                            },
                        );
                    }
                }
                i += 1;
            }
            assert(pads@.take(i as int) =~= pads@);
        }
    }
    let ghost chops = events@;
    let mut k: usize = 0;
    assert(tracks@.take(0) =~= Seq::<DrumTrack>::empty());
    assert(events@ =~= chops + drum_events(tracks@.take(0), step));
    while k < tracks.len()
        invariant
            k <= tracks@.len(),
            events@ == chops + drum_events(tracks@.take(k as int), step),
        decreases tracks@.len() - k,
    {
        let track = &tracks[k];
        proof {
            assert(tracks@.take(k + 1).drop_last() =~= tracks@.take(k as int));
            assert(tracks@.take(k + 1).last() == *track);
        }
        if !track.muted && step < NUM_STEPS && track.steps[step] {
            events.push(
                VoiceEvent {
                    pcm: share_pcm(&track.asset.pcm),
                    channels: track.asset.channels as usize,
                    start_frame: 0,
                    speed: UNIT,
                    adsr: track.envelope,
                },
            );
            assert(events@ =~= chops + drum_events(tracks@.take(k + 1), step));
        }
        k += 1;
    }
    assert(tracks@.take(k as int) =~= tracks@);
    events
}

} // verus!
