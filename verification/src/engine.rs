//! The engine's state as the control side sees it, and the commands that
//! drive playback and the sequencer.

use crate::adsr::ADSREnvelope;
use crate::audio::{AudioAsset, AudioManager, WaveformAnalysis};
use crate::playback::{frames_played, output_frames, scrub_sample, PlaybackStatus, Transport};
use crate::samples::SamplesManager;
use crate::sequencer::{
    collect_events, step_events, DrumTrack, StepClock, VoiceEvent, NUM_STEPS,
};
use crate::voice::Voice;
use vstd::prelude::*;

verus! {

/// Which asset the waveform display shows.
#[derive(Clone, Copy, Debug, PartialEq, Eq, Structural)]
pub enum WaveformFocus {
    MainSample,
    DrumTrack(usize),
}

/// What the engine last reported.
#[derive(Clone, Copy, Debug, PartialEq, Eq, Structural)]
pub enum EngineStatus {
    /// Nothing is loaded yet.
    Ready,
    /// What single-track playback last did.
    Playback(PlaybackStatus),
    SequencerStarted,
    SequencerStopped,
}

/// The voices that a list of events triggers.
pub open spec fn voices_of(events: Seq<VoiceEvent>) -> Seq<Voice> {
    Seq::new(events.len(), |i: int| events[i].voice())
}

/// Two waveform overviews hold the same buckets for the same sample rate, or
/// both are missing.
pub open spec fn same_waveform(a: Option<WaveformAnalysis>, b: Option<WaveformAnalysis>) -> bool {
    match (a, b) {
        (Some(x), Some(y)) => x.min_max_buckets@ == y.min_max_buckets@ && x.sample_rate
            == y.sample_rate,
        (None, None) => true,
        _ => false,
    }
}

/// `i` is the index of the first occurrence of `pad` in `pads`.
pub open spec fn is_first_pad(pads: Seq<usize>, pad: usize, i: int) -> bool {
    &&& 0 <= i < pads.len()
    &&& pads[i] == pad
    &&& forall|j: int| 0 <= j < i ==> #[trigger] pads[j] != pad
}

/// The pads of a step after `pad` is toggled: without its first occurrence
/// if it was set, with it at the end if it was not.
pub open spec fn pad_toggled(pads: Seq<usize>, pad: usize) -> Seq<usize> {
    if exists|i: int| is_first_pad(pads, pad, i) {
        pads.remove(choose|i: int| is_first_pad(pads, pad, i))
    } else {
        pads.push(pad)
    }
}

/// The first occurrence is unique.
pub proof fn lemma_first_pad_unique(pads: Seq<usize>, pad: usize, i: int)
    requires
        is_first_pad(pads, pad, i),
    ensures
        (choose|k: int| is_first_pad(pads, pad, k)) == i,
{
    let chosen = choose|k: int| is_first_pad(pads, pad, k);
    if chosen < i {
        assert(pads[chosen] != pad);
    } else if i < chosen {
        assert(pads[i] != pad);
    }
}

/// `after` is `before` with `step` flipped and nothing else changed.
pub open spec fn is_step_flipped(before: DrumTrack, after: DrumTrack, step: usize) -> bool {
    &&& after == (DrumTrack { steps: after.steps, ..before })
    &&& forall|s: int|
        0 <= s < NUM_STEPS ==> #[trigger] after.steps@[s] == if s == step {
            !before.steps@[s]
        } else {
            before.steps@[s]
        }
}

/// `after` is `before` with no step set and nothing else changed.
pub open spec fn is_steps_cleared(before: DrumTrack, after: DrumTrack) -> bool {
    &&& after == (DrumTrack { steps: after.steps, ..before })
    &&& forall|s: int| 0 <= s < NUM_STEPS ==> !(#[trigger] after.steps@[s])
}

/// The state of the engine.
pub struct AppState {
    pub audio_manager: AudioManager,
    pub samples_manager: SamplesManager,
    /// The main sample.
    pub current_asset: Option<AudioAsset>,
    pub waveform_analysis: Option<WaveformAnalysis>,
    pub status: EngineStatus,
    /// Single-track playback.
    pub transport: Transport,
    /// The asset that single-track playback reads from while a run lasts.
    pub playback_asset: Option<AudioAsset>,
    /// For each step, the pads set on it; a pad is the index of a mark.
    pub seq_grid: Vec<Vec<usize>>,
    /// The envelope of each pad, by pad.
    pub pad_envelopes: Vec<ADSREnvelope>,
    pub drum_tracks: Vec<DrumTrack>,
    pub clock: StepClock,
    /// The voices triggered and not yet handed to the mixer.
    pub seq_voice_queue: Vec<Voice>,
    pub waveform_focus: WaveformFocus,
}

impl Default for AppState {
    /// An engine with nothing loaded, a grid of sixteen empty steps and the
    /// clock at rest at 120 beats per minute.
    fn default() -> (r: Self)
        ensures
            r.current_asset is None,
            r.waveform_analysis is None,
            r.playback_asset is None,
            r.status == EngineStatus::Ready,
            r.transport == (Transport {
                sample_index: 0,
                position: 0,
                playing: false,
                stop_target: None,
                status: PlaybackStatus::Idle,
            }),
            r.clock == (StepClock {
                bpm: 120,
                playing: false,
                current_step: 0,
                last_step_time: None,
            }),
            r.seq_grid@.len() == NUM_STEPS,
            forall|i: int| 0 <= i < r.seq_grid@.len() ==> (#[trigger] r.seq_grid@[i])@.len() == 0,
            r.pad_envelopes@.len() == 0,
            r.drum_tracks@.len() == 0,
            r.seq_voice_queue@.len() == 0,
            r.waveform_focus == WaveformFocus::MainSample,
            r.samples_manager.marks().len() == 0,
            r.samples_manager.regions().len() == 0,
            r.samples_manager.relations() == Map::<usize, Seq<usize>>::empty(),
            r.samples_manager.mode() == crate::samples::PlaybackMode::PlayToEnd,
            r.samples_manager.next_mark_id() == 1,
            r.samples_manager.next_region() == 1,
            r.audio_manager.entries().len() == 0,
    {
        let mut grid: Vec<Vec<usize>> = Vec::new();
        while grid.len() < NUM_STEPS
            invariant
                grid@.len() <= NUM_STEPS,
                forall|i: int| 0 <= i < grid@.len() ==> (#[trigger] grid@[i])@.len() == 0,
            decreases NUM_STEPS - grid@.len(),
        {
            grid.push(Vec::new());
        }
        AppState {
            audio_manager: AudioManager::new(),
            samples_manager: SamplesManager::new(),
            current_asset: None,
            waveform_analysis: None,
            status: EngineStatus::Ready,
            transport: Transport::new(),
            playback_asset: None,
            seq_grid: grid,
            pad_envelopes: Vec::new(),
            drum_tracks: Vec::new(),
            clock: StepClock::new(),
            seq_voice_queue: Vec::new(),
            waveform_focus: WaveformFocus::MainSample,
        }
    }
}

impl AppState {
    /// Starts a run of `asset` from the current position. A run under way is
    /// ended first. The stop target is fixed for the run from the registry
    /// and the position as they are now.
    pub fn start_playback(&mut self, asset: AudioAsset)
        ensures
            *final(self) == (AppState {
                transport: (Transport { playing: false, ..old(self).transport }).started(
                    &old(self).samples_manager,
                    asset.file_name@,
                ),
                playback_asset: Some(asset),
                status: EngineStatus::Playback(PlaybackStatus::Playing),
                ..*old(self)
            }),
    {
        self.stop_playback();
        self.transport.start(&self.samples_manager, asset.file_name.as_str());
        self.playback_asset = Some(asset);
        self.status = EngineStatus::Playback(PlaybackStatus::Playing);
    }

    /// Ends the run and lets go of the asset it read from. The position stays.
    pub fn stop_playback(&mut self)
        ensures
            *final(self) == (AppState {
                transport: Transport { playing: false, ..old(self).transport },
                playback_asset: None,
                ..*old(self)
            }),
    {
        self.transport.stop();
        self.playback_asset = None;
    }

    /// Records that the output device could not be opened or failed: the run
    /// ends and the status says so.
    pub fn playback_failed(&mut self)
        ensures
            *final(self) == (AppState {
                transport: Transport {
                    playing: false,
                    status: PlaybackStatus::DeviceError,
                    ..old(self).transport
                },
                status: EngineStatus::Playback(PlaybackStatus::DeviceError),
                ..*old(self)
            }),
    {
        self.transport.fail();
        self.status = EngineStatus::Playback(PlaybackStatus::DeviceError);
    }

    /// Pauses a run that is under way, or cues the transport and starts a run
    /// of the main sample. Without a main sample nothing happens. Returns
    /// whether a run was started.
    pub fn toggle_playback(&mut self) -> (started: bool)
        ensures
            old(self).current_asset is None ==> !started && *final(self) == *old(self),
            old(self).current_asset is Some && old(self).transport.playing ==> !started && *final(self) == (AppState {
                transport: Transport {
                    playing: false,
                    status: PlaybackStatus::Paused,
                    ..old(self).transport
                },
                status: EngineStatus::Playback(PlaybackStatus::Paused),
                ..*old(self)
            }),
            old(self).current_asset matches Some(asset) ==> !old(self).transport.playing
                ==> started && *final(self) == (AppState {
                transport: old(self).transport.cued(
                    &old(self).samples_manager,
                    asset.pcm@.len() as int,
                ).started(&old(self).samples_manager, asset.file_name@),
                playback_asset: Some(asset),
                status: EngineStatus::Playback(PlaybackStatus::Playing),
                ..*old(self)
            }),
    {
        let asset = match &self.current_asset {
            Some(asset) => asset.clone(),
            None => {
                return false;
            },
        };
        let started = self.transport.toggle(
            &self.samples_manager,
            asset.file_name.as_str(),
            asset.pcm.len(),
        );
        if started {
            self.playback_asset = Some(asset);
            self.status = EngineStatus::Playback(PlaybackStatus::Playing);
        } else {
            self.status = EngineStatus::Playback(PlaybackStatus::Paused);
        }
        started
    }

    /// Moves the position of the main sample to `normalized_pos`, held at its
    /// end. A run that was under way starts anew from there. Without a main
    /// sample nothing happens. Returns whether a run was started anew.
    pub fn seek_to(&mut self, normalized_pos: u32) -> (restarted: bool)
        ensures
            old(self).current_asset is None ==> !restarted && *final(self) == *old(self),
            old(self).current_asset matches Some(asset) ==> {
                let sought = old(self).transport.sought(normalized_pos, asset.pcm@.len() as int);
                &&& restarted == old(self).transport.playing
                &&& !restarted ==> *final(self) == (AppState {
                    transport: sought,
                    status: EngineStatus::Playback(PlaybackStatus::Seeked),
                    ..*old(self)
                })
                &&& restarted ==> *final(self) == (AppState {
                    transport: sought.started(&old(self).samples_manager, asset.file_name@),
                    playback_asset: Some(asset),
                    status: EngineStatus::Playback(PlaybackStatus::Playing),
                    ..*old(self)
                })
            },
    {
        let asset = match &self.current_asset {
            Some(asset) => asset.clone(),
            None => {
                return false;
            },
        };
        let restarted = self.transport.seek(
            normalized_pos,
            &self.samples_manager,
            asset.file_name.as_str(),
            asset.pcm.len(),
        );
        if restarted {
            self.playback_asset = Some(asset);
            self.status = EngineStatus::Playback(PlaybackStatus::Playing);
        } else {
            self.status = EngineStatus::Playback(PlaybackStatus::Seeked);
        }
        restarted
    }

    /// Starts the sequencer at step 0 and drops the voices still queued.
    pub fn start_sequencer(&mut self)
        ensures
            final(self).seq_voice_queue@.len() == 0,
            *final(self) == (AppState {
                clock: StepClock {
                    playing: true,
                    current_step: 0,
                    last_step_time: None,
                    ..old(self).clock
                },
                status: EngineStatus::SequencerStarted,
                seq_voice_queue: final(self).seq_voice_queue,
                ..*old(self)
            }),
    {
        self.seq_voice_queue.clear();
        self.clock.start();
        self.status = EngineStatus::SequencerStarted;
    }

    /// Stops the sequencer, goes back to step 0 and drops the voices still
    /// queued.
    pub fn stop_sequencer(&mut self)
        ensures
            final(self).seq_voice_queue@.len() == 0,
            *final(self) == (AppState {
                clock: StepClock { playing: false, current_step: 0, ..old(self).clock },
                status: EngineStatus::SequencerStopped,
                seq_voice_queue: final(self).seq_voice_queue,
                ..*old(self)
            }),
    {
        self.clock.stop();
        self.seq_voice_queue.clear();
        self.status = EngineStatus::SequencerStopped;
    }

    /// Ticks the sequencer's clock at `now`. If the clock advances, the
    /// voices that the step triggers join the queue, in their order. Returns
    /// the number of voices queued by this tick.
    pub fn tick_sequencer(&mut self, now: u64) -> (queued: usize)
        ensures
            final(self).clock == old(self).clock.ticked(now),
            final(self).seq_voice_queue@ == old(self).seq_voice_queue@ + if old(self).clock.due(
                now,
            ) {
                voices_of(
                    step_events(
                        old(self).clock.step(),
                        old(self).current_asset,
                        old(self).seq_grid@,
                        old(self).samples_manager.marks(),
                        old(self).pad_envelopes@,
                        old(self).drum_tracks@,
                    ),
                )
            } else {
                Seq::<Voice>::empty()
            },
            queued == final(self).seq_voice_queue@.len() - old(self).seq_voice_queue@.len(),
            *final(self) == (AppState {
                clock: old(self).clock.ticked(now),
                seq_voice_queue: final(self).seq_voice_queue,
                ..*old(self)
            }),
    {
        let step = match self.clock.tick(now) {
            Some(step) => step,
            None => {
                assert(self.seq_voice_queue@ =~= old(self).seq_voice_queue@ + Seq::<Voice>::empty());
                return 0;
            },
        };
        let marks = self.samples_manager.get_marks();
        let mut events = collect_events(
            step,
            &self.current_asset,
            &self.seq_grid,
            &marks,
            &self.pad_envelopes,
            &self.drum_tracks,
        );
        let ghost all = events@;
        let ghost queue = self.seq_voice_queue@;
        let count = events.len();
        let mut taken: usize = 0;
        while events.len() > 0
            invariant
                taken + events@.len() == count == all.len(),
                events@ == all.skip(taken as int),
                self.seq_voice_queue@ == queue + voices_of(all.take(taken as int)),
                *self == (AppState {
                    clock: old(self).clock.ticked(now),
                    seq_voice_queue: self.seq_voice_queue,
                    ..*old(self)
                }),
            decreases events@.len(),
        {
            let event = events.remove(0);
            self.seq_voice_queue.push(event.into_voice());
            taken += 1;
            assert(events@ =~= all.skip(taken as int));
            assert(self.seq_voice_queue@ =~= queue + voices_of(all.take(taken as int)));
        }
        assert(all.take(taken as int) =~= all);
        count
    }

    /// The asset and the waveform overview that the display shows: those of
    /// the focused drum track, or those of the main sample where the focus is
    /// on it or on a track that is not there.
    pub fn focused_display(&self) -> (r: (Option<AudioAsset>, Option<WaveformAnalysis>))
        ensures
            match self.waveform_focus {
                WaveformFocus::DrumTrack(idx) if idx < self.drum_tracks@.len() => {
                    &&& r.0 == Some(self.drum_tracks@[idx as int].asset)
                    &&& same_waveform(r.1, self.drum_tracks@[idx as int].waveform)
                },
                _ => {
                    &&& r.0 == self.current_asset
                    &&& same_waveform(r.1, self.waveform_analysis)
                },
            },
    {
        if let WaveformFocus::DrumTrack(idx) = self.waveform_focus {
            if idx < self.drum_tracks.len() {
                let track = &self.drum_tracks[idx];
                let waveform = match &track.waveform {
                    Some(w) => Some(w.clone()),
                    None => None,
                };
                return (Some(track.asset.clone()), waveform);
            }
        }
        let asset = match &self.current_asset {
            Some(a) => Some(a.clone()),
            None => None,
        };
        let waveform = match &self.waveform_analysis {
            Some(w) => Some(w.clone()),
            None => None,
        };
        (asset, waveform)
    }

    /// The engine after it takes over the transport `ran` as a callback left
    /// it: a run that has come to rest since reports how it ended.
    pub open spec fn took_over(self, ran: Transport) -> AppState {
        AppState {
            transport: ran,
            status: if self.transport.playing && !ran.playing {
                EngineStatus::Playback(ran.status)
            } else {
                self.status
            },
            ..self
        }
    }

    /// Takes over the transport as the audio callback has left it. Where the
    /// run has come to rest in the callback, the engine's status says how.
    pub fn adopt_transport(&mut self, ran: Transport)
        ensures
            *final(self) == old(self).took_over(ran),
    {
        let was_playing = self.transport.playing;
        self.transport = ran;
        if was_playing && !ran.playing {
            self.status = EngineStatus::Playback(ran.status);
        }
    }

    /// One audio callback of single-track playback over the interleaved
    /// buffer `out` of a device with `out_channels` channels. Without an asset
    /// to read from the buffer is silenced. A run that halts in this callback
    /// reports how it ended.
    pub fn render_playback(&mut self, out: &mut Vec<i32>, out_channels: usize)
        ensures
            final(out)@.len() == old(out)@.len(),
            old(self).playback_asset is None ==> {
                &&& *final(self) == *old(self)
                &&& forall|i: int| 0 <= i < old(out)@.len() ==> #[trigger] final(out)@[i] == 0
            },
            old(self).playback_asset matches Some(asset) ==> {
                let room = output_frames(old(out)@.len() as int, out_channels);
                let ran = old(self).transport.filled(asset.pcm@.len() as int, asset.channels, room);
                &&& *final(self) == old(self).took_over(ran)
                &&& forall|i: int|
                    0 <= i < old(out)@.len() ==> #[trigger] final(out)@[i] == if old(self).transport.playing {
                        scrub_sample(
                            asset.pcm@,
                            asset.channels,
                            out_channels,
                            old(self).transport.sample_index as int,
                            frames_played(
                                old(self).transport.sample_index as int,
                                asset.channels,
                                asset.pcm@.len() as int,
                                old(self).transport.stop_target,
                                room,
                            ),
                            i,
                        )
                    } else {
                        0
                    }
            },
    {
        let mut ran = self.transport;
        match &self.playback_asset {
            Some(asset) => {
                ran.fill(&*asset.pcm, asset.channels, out, out_channels);
            },
            None => {
                let len = out.len();
                let mut i: usize = 0;
                while i < len
                    invariant
                        i <= len == out@.len(),
                        forall|k: int| 0 <= k < i ==> out@[k] == 0,
                    decreases len - i,
                {
                    out.set(i, 0);
                    i += 1;
                }
                return ;
            },
        }
        self.adopt_transport(ran);
    }
}

impl AppState {
    /// Sets `pad` on `step` of the grid, or takes it off if it is set. A step
    /// that the grid does not have changes nothing.
    pub fn toggle_pad(&mut self, step: usize, pad: usize)
        ensures
            final(self).seq_grid@.len() == old(self).seq_grid@.len(),
            forall|k: int|
                0 <= k < old(self).seq_grid@.len() ==> (#[trigger] final(self).seq_grid@[k])@ == if k
                    == step {
                    pad_toggled(old(self).seq_grid@[k]@, pad)
                } else {
                    old(self).seq_grid@[k]@
                },
            *final(self) == (AppState { seq_grid: final(self).seq_grid, ..*old(self) }),
    {
        if step >= self.seq_grid.len() {
            return ;
        }
        let ghost before = self.seq_grid@[step as int]@;
        let mut i: usize = 0;
        while i < self.seq_grid[step].len()
            invariant
                step < self.seq_grid@.len(),
                *self == *old(self),
                before == self.seq_grid@[step as int]@,
                i <= before.len(),
                forall|j: int| 0 <= j < i ==> #[trigger] before[j] != pad,
            decreases before.len() - i,
        {
            if self.seq_grid[step][i] == pad {
                proof {
                    lemma_first_pad_unique(before, pad, i as int);
                }
                self.seq_grid[step].remove(i);
                return ;
            }
            i += 1;
        }
        self.seq_grid[step].push(pad);
    }

    /// Sets `step` on the drum track `track`, or takes it off if it is set.
    /// A track or a step that is not there changes nothing.
    pub fn toggle_drum_step(&mut self, track: usize, step: usize)
        ensures
            final(self).drum_tracks@.len() == old(self).drum_tracks@.len(),
            forall|k: int|
                0 <= k < old(self).drum_tracks@.len() ==> if k == track && step < NUM_STEPS {
                    is_step_flipped(
                        old(self).drum_tracks@[k],
                        #[trigger] final(self).drum_tracks@[k],
                        step,
                    )
                } else {
                    final(self).drum_tracks@[k] == old(self).drum_tracks@[k]
                },
            *final(self) == (AppState { drum_tracks: final(self).drum_tracks, ..*old(self) }),
    {
        if track < self.drum_tracks.len() && step < NUM_STEPS {
            let set = self.drum_tracks[track].steps[step];
            self.drum_tracks[track].steps[step] = !set;
        }
    }
}

impl AppState {
    /// Takes every pad off every step of the grid and every step off every
    /// drum track.
    pub fn clear_pattern(&mut self)
        ensures
            final(self).seq_grid@.len() == old(self).seq_grid@.len(),
            forall|k: int|
                0 <= k < final(self).seq_grid@.len() ==> (#[trigger] final(self).seq_grid@[k])@.len()
                    == 0,
            final(self).drum_tracks@.len() == old(self).drum_tracks@.len(),
            forall|k: int|
                0 <= k < old(self).drum_tracks@.len() ==> is_steps_cleared(
                    old(self).drum_tracks@[k],
                    #[trigger] final(self).drum_tracks@[k],
                ),
            *final(self) == (AppState {
                seq_grid: final(self).seq_grid,
                drum_tracks: final(self).drum_tracks,
                ..*old(self)
            }),
    {
        let mut i: usize = 0;
        while i < self.seq_grid.len()
            invariant
                i <= self.seq_grid@.len() == old(self).seq_grid@.len(),
                forall|k: int| 0 <= k < i ==> (#[trigger] self.seq_grid@[k])@.len() == 0,
                *self == (AppState { seq_grid: self.seq_grid, ..*old(self) }),
            decreases self.seq_grid@.len() - i,
        {
            self.seq_grid[i].clear();
            i += 1;
        }
        let mut t: usize = 0;
        while t < self.drum_tracks.len()
            invariant
                t <= self.drum_tracks@.len() == old(self).drum_tracks@.len(),
                self.seq_grid@.len() == old(self).seq_grid@.len(),
                forall|k: int|
                    0 <= k < self.seq_grid@.len() ==> (#[trigger] self.seq_grid@[k])@.len() == 0,
                forall|k: int|
                    0 <= k < t ==> is_steps_cleared(
                        old(self).drum_tracks@[k],
                        #[trigger] self.drum_tracks@[k],
                    ),
                forall|k: int|
                    t <= k < self.drum_tracks@.len() ==> #[trigger] self.drum_tracks@[k] == old(self).drum_tracks@[k],
                *self == (AppState {
                    seq_grid: self.seq_grid,
                    drum_tracks: self.drum_tracks,
                    ..*old(self)
                }),
            decreases self.drum_tracks@.len() - t,
        {
            self.drum_tracks[t].steps = [
                false,
                false,
                false,
                false,
                false,
                false,
                false,
                false,
                false,
                false,
                false,
                false,
                false,
                false,
                false,
                false,
            ];
            t += 1;
        }
    }
}

} // verus!
