//! Single-track playback: one cursor over one asset, read straight into the
//! output buffer until the end of the PCM or a frozen stop target.

use crate::samples::SamplesManager;
use crate::units::{lemma_flat_index, ramp, ramp_sample, UNIT};
use vstd::prelude::*;

verus! {

/// A position at or past this one, in millionths, counts as the end of the
/// asset when playback is toggled on.
pub const NEAR_END: u32 = 999_000;

/// What the transport last did.
#[derive(Clone, Copy, Debug, PartialEq, Eq, Structural)]
pub enum PlaybackStatus {
    /// Nothing has been played yet.
    Idle,
    /// A run is under way.
    Playing,
    /// The run was paused; the position is kept.
    Paused,
    /// The position was set by a seek.
    Seeked,
    /// The run reached its stop target.
    StoppedAtMarker,
    /// The run reached the end of the PCM.
    Finished,
    /// The output device could not be opened or failed.
    DeviceError,
}

impl PlaybackStatus {
    /// The text that stands for this status.
    pub open spec fn text(self) -> Seq<char> {
        match self {
            PlaybackStatus::Idle => "Ready"@,
            PlaybackStatus::Playing => "Playing"@,
            PlaybackStatus::Paused => "Paused"@,
            PlaybackStatus::Seeked => "Seeked"@,
            PlaybackStatus::StoppedAtMarker => "Stopped at marker"@,
            PlaybackStatus::Finished => "Playback finished"@,
            PlaybackStatus::DeviceError => "Playback error"@,
        }
    }

    /// The status as a number, for a place that holds numbers only.
    pub open spec fn code_of(self) -> u8 {
        match self {
            PlaybackStatus::Idle => 0,
            PlaybackStatus::Playing => 1,
            PlaybackStatus::Paused => 2,
            PlaybackStatus::Seeked => 3,
            PlaybackStatus::StoppedAtMarker => 4,
            PlaybackStatus::Finished => 5,
            PlaybackStatus::DeviceError => 6,
        }
    }

    /// Computes [`PlaybackStatus::code_of`].
    pub fn code(&self) -> (code: u8)
        ensures
            code == self.code_of(),
            code <= 6,
    {
        match self {
            PlaybackStatus::Idle => 0,
            PlaybackStatus::Playing => 1,
            PlaybackStatus::Paused => 2,
            PlaybackStatus::Seeked => 3,
            PlaybackStatus::StoppedAtMarker => 4,
            PlaybackStatus::Finished => 5,
            PlaybackStatus::DeviceError => 6,
        }
    }

    /// The status that `code` stands for; a number that stands for none is
    /// read as `Idle`.
    pub fn from_code(code: u8) -> (status: PlaybackStatus)
        ensures
            code <= 6 ==> status.code_of() == code,
            code > 6 ==> status == PlaybackStatus::Idle,
            forall|s: PlaybackStatus| s.code_of() == code ==> status == s,
    {
        match code {
            1 => PlaybackStatus::Playing,
            2 => PlaybackStatus::Paused,
            3 => PlaybackStatus::Seeked,
            4 => PlaybackStatus::StoppedAtMarker,
            5 => PlaybackStatus::Finished,
            6 => PlaybackStatus::DeviceError,
            _ => PlaybackStatus::Idle,
        }
    }

    /// The status in words, for a status line.
    pub fn label(&self) -> (label: &'static str)
        ensures
            label@ == self.text(),
    {
        match self {
            PlaybackStatus::Idle => "Ready",
            PlaybackStatus::Playing => "Playing",
            PlaybackStatus::Paused => "Paused",
            PlaybackStatus::Seeked => "Seeked",
            PlaybackStatus::StoppedAtMarker => "Stopped at marker",
            PlaybackStatus::Finished => "Playback finished",
            PlaybackStatus::DeviceError => "Playback error",
        }
    }
}

/// The state of single-track playback.
#[derive(Clone, Copy, Debug)]
pub struct Transport {
    /// The index of the next sample in the interleaved PCM.
    pub sample_index: u64,
    /// The position in millionths of the asset's length.
    pub position: u32,
    /// Whether a run is under way.
    pub playing: bool,
    /// Where the current run stops, in millionths of the asset's length;
    /// fixed when the run starts.
    pub stop_target: Option<u32>,
    /// What the transport last did.
    pub status: PlaybackStatus,
}

/// The number of whole frames in `len` interleaved samples.
pub open spec fn frame_count(len: int, channels: u16) -> int {
    if channels == 0 {
        0
    } else {
        len / (channels as int)
    }
}

/// The frame that a normalized position falls into, rounded down.
pub open spec fn frame_of(position: u32, frames: int) -> int {
    (position * frames) / (UNIT as int)
}

/// The first frame that a run does not play: the last frame of the PCM, or
/// the frame of the stop target where that comes first. A run plays frame
/// `f` only while `f` is below this fence, so that the frame after `f` is
/// there to interpolate with.
pub open spec fn fence(stop_target: Option<u32>, frames: int) -> int {
    let last = if frames <= 0 {
        0
    } else {
        frames - 1
    };
    match stop_target {
        Some(target) => if frame_of(target, frames) < last {
            frame_of(target, frames)
        } else {
            last
        },
        None => last,
    }
}

/// Whether a run that halts at frame `frame` halts on its stop target rather
/// than at the end of the PCM. The target is tested first.
pub open spec fn halts_on_target(stop_target: Option<u32>, frames: int, frame: int) -> bool {
    match stop_target {
        Some(target) => frame >= frame_of(target, frames),
        None => false,
    }
}

/// The number of whole output frames in a buffer of `out_len` samples for a
/// device with `out_channels` channels; none for a device without channels.
pub open spec fn output_frames(out_len: int, out_channels: usize) -> int {
    if out_channels == 0 {
        0
    } else {
        out_len / (out_channels as int)
    }
}

/// The number of source frames that one callback plays from sample index
/// `index` into a buffer with room for `room` output frames: one source frame
/// for each output frame, until the buffer is full or the fence is reached.
pub open spec fn frames_played(
    index: int,
    channels: u16,
    pcm_len: int,
    stop_target: Option<u32>,
    room: int,
) -> int {
    let frames = frame_count(pcm_len, channels);
    let first = frame_count(index, channels);
    let stop = fence(stop_target, frames);
    if channels == 0 || first >= stop || room <= 0 {
        0
    } else if stop - first < room {
        stop - first
    } else {
        room
    }
}

/// The source channel that feeds output channel `out_channel`: the same
/// index, held at the last source channel.
pub open spec fn source_channel(channels: u16, out_channel: int) -> int {
    if out_channel < channels {
        out_channel
    } else {
        channels - 1
    }
}

/// Sample `i` of the buffer that one callback fills from sample index
/// `index` for a device with `out_channels` channels: output channel
/// `i % out_channels` of output frame `i / out_channels`. It is read from
/// the source frame that many frames on, from the source channel that feeds
/// that output channel, interpolated toward the frame after it by the
/// fraction of a frame that `index` stands off a frame boundary. Behind the
/// frames played lies silence.
pub open spec fn scrub_sample(
    pcm: Seq<i32>,
    channels: u16,
    out_channels: usize,
    index: int,
    played: int,
    i: int,
) -> int {
    if channels > 0 && out_channels > 0 && i < played * out_channels {
        let frame = index / (channels as int) + i / (out_channels as int);
        let c = source_channel(channels, i % (out_channels as int));
        ramp(
            pcm[frame * channels + c] as int,
            pcm[(frame + 1) * channels + c] as int,
            (index % (channels as int)) as nat,
            channels as nat,
        )
    } else {
        0
    }
}

/// The normalized position of sample index `index` in a PCM of `total`
/// samples, held at the end; `fallback` where the PCM is empty.
pub open spec fn position_of(index: int, total: int, fallback: u32) -> u32 {
    if total <= 0 {
        fallback
    } else if (index * UNIT) / total >= UNIT {
        UNIT
    } else {
        ((index * UNIT) / total) as u32
    }
}

/// The sample index of a normalized position in a PCM of `total` samples,
/// rounded down and held at the end.
pub open spec fn index_of(position: u32, total: int) -> int {
    if position >= UNIT {
        total
    } else {
        (position * total) / (UNIT as int)
    }
}

/// The stop target that a run from `position` freezes: the target the
/// registry gives, unless the run starts at or past it.
pub open spec fn frozen_target(target: Option<u32>, position: u32) -> Option<u32> {
    match target {
        Some(t) => if position >= t {
            None
        } else {
            Some(t)
        },
        None => None,
    }
}

/// Whether the run halts in the callback that starts at sample index `index`:
/// it has no channels to play, or it reaches its fence before the `room`
/// output frames of the buffer are full.
pub open spec fn run_halts(
    index: int,
    channels: u16,
    pcm_len: int,
    stop_target: Option<u32>,
    room: int,
) -> bool {
    channels == 0 || frames_played(index, channels, pcm_len, stop_target, room) < room
}

/// How a halted run ended: at its stop target if the frame it halted at has
/// reached the target, else at the end of the PCM. A run without channels
/// ends at once as finished.
pub open spec fn halt_status(
    index: int,
    channels: u16,
    pcm_len: int,
    stop_target: Option<u32>,
    room: int,
) -> PlaybackStatus {
    let frames = frame_count(pcm_len, channels);
    let halted_at = frame_count(index, channels) + frames_played(
        index,
        channels,
        pcm_len,
        stop_target,
        room,
    );
    if channels > 0 && halts_on_target(stop_target, frames, halted_at) {
        PlaybackStatus::StoppedAtMarker
    } else {
        PlaybackStatus::Finished
    }
}

/// Computes [`index_of`].
pub fn sample_index_of(position: u32, total: usize) -> (index: u64)
    ensures
        index == index_of(position, total as int),
        index <= total,
{
    if position >= UNIT {
        total as u64
    } else {
        assert(position * total <= 0xffff_ffff * 0xffff_ffff_ffff_ffff) by (nonlinear_arith)
            requires
                0 <= position <= 0xffff_ffff,
                0 <= total <= 0xffff_ffff_ffff_ffff,
        ;
        proof {
            crate::units::lemma_part_bounded(total as int, position as int, UNIT as int);
            vstd::arithmetic::mul::lemma_mul_is_commutative(total as int, position as int);
        }
        ((position as u128 * total as u128) / (UNIT as u128)) as u64
    }
}

/// Computes [`position_of`].
pub fn position_at(index: u64, total: usize, fallback: u32) -> (position: u32)
    ensures
        position == position_of(index as int, total as int, fallback),
        total > 0 ==> position <= UNIT,
{
    if total == 0 {
        fallback
    } else {
        assert(index * UNIT <= 0xffff_ffff_ffff_ffff * 1_000_000) by (nonlinear_arith)
            requires
                0 <= index <= 0xffff_ffff_ffff_ffff,
        ;
        let scaled: u128 = (index as u128 * UNIT as u128) / (total as u128);
        if scaled >= UNIT as u128 {
            UNIT
        } else {
            scaled as u32
        }
    }
}

/// Computes [`fence`].
pub fn fence_of(stop_target: Option<u32>, frames: usize) -> (stop: usize)
    ensures
        stop == fence(stop_target, frames as int),
        frames > 0 ==> stop < frames,
        frames == 0 ==> stop == 0,
{
    let last: usize = if frames == 0 {
        0
    } else {
        frames - 1
    };
    match stop_target {
        Some(target) => {
            assert(target * frames <= 0xffff_ffff * 0xffff_ffff_ffff_ffff && target * frames >= 0)
                by (nonlinear_arith)
                requires
                    0 <= target <= 0xffff_ffff,
                    0 <= frames <= 0xffff_ffff_ffff_ffff,
            ;
            let at: u128 = (target as u128 * frames as u128) / (UNIT as u128);
            if at < last as u128 {
                at as usize
            } else {
                last
            }
        },
        None => last,
    }
}

/// Whether frame `frame` has reached the stop target; computes
/// [`halts_on_target`].
pub fn reached_target(stop_target: Option<u32>, frames: usize, frame: u64) -> (r: bool)
    ensures
        r == halts_on_target(stop_target, frames as int, frame as int),
{
    match stop_target {
        Some(target) => {
            assert(target * frames <= 0xffff_ffff * 0xffff_ffff_ffff_ffff && target * frames >= 0)
                by (nonlinear_arith)
                requires
                    0 <= target <= 0xffff_ffff,
                    0 <= frames <= 0xffff_ffff_ffff_ffff,
            ;
            let at: u128 = (target as u128 * frames as u128) / (UNIT as u128);
            frame as u128 >= at
        },
        None => false,
    }
}

/// Silences `out` from sample `from` on.
fn silence_from(out: &mut Vec<i32>, from: usize)
    requires
        from <= old(out)@.len(),
    ensures
        final(out)@.len() == old(out)@.len(),
        forall|i: int| 0 <= i < from ==> final(out)@[i] == old(out)@[i],
        forall|i: int| from <= i < final(out)@.len() ==> final(out)@[i] == 0,
{
    let len = out.len();
    let mut i: usize = from;
    while i < len
        invariant
            from <= i <= len == out@.len(),
            out@.len() == old(out)@.len(),
            forall|k: int| 0 <= k < from ==> out@[k] == old(out)@[k],
            forall|k: int| from <= k < i ==> out@[k] == 0,
        decreases len - i,
    {
        out.set(i, 0);
        i += 1;
    }
}

impl Transport {
    /// A transport at the start of its asset, at rest.
    pub fn new() -> (r: Self)
        ensures
            r == (Transport {
                sample_index: 0,
                position: 0,
                playing: false,
                stop_target: None,
                status: PlaybackStatus::Idle,
            }),
    {
        Transport {
            sample_index: 0,
            position: 0,
            playing: false,
            stop_target: None,
            status: PlaybackStatus::Idle,
        }
    }

    /// The transport as a toggle from rest cues it: in a region mode, at the
    /// mark the region starts from, where region and mark exist; in the other
    /// modes, back at the start when the position has come near the end.
    pub open spec fn cued(self, registry: &SamplesManager, total: int) -> Transport {
        match registry.mode() {
            crate::samples::PlaybackMode::CustomRegion { region_id } => match crate::samples::region_by_id(
                registry.regions(),
                region_id,
            ) {
                Some(region) => match crate::samples::mark_by_id(registry.marks(), region.from) {
                    Some(mark) => Transport {
                        position: mark.position,
                        sample_index: index_of(mark.position, total) as u64,
                        ..self
                    },
                    None => self,
                },
                None => self,
            },
            _ => if self.position >= NEAR_END {
                Transport { position: 0, sample_index: 0, ..self }
            } else {
                self
            },
        }
    }

    /// The transport as a new run of the sample named `name` starts it: the
    /// stop target is fixed for the run from the registry as it is now and
    /// the position as it is now.
    pub open spec fn started(self, registry: &SamplesManager, name: Seq<char>) -> Transport {
        Transport {
            playing: true,
            stop_target: frozen_target(registry.target(name, self.position), self.position),
            status: PlaybackStatus::Playing,
            ..self
        }
    }

    /// The transport after a seek to `position` in a PCM of `total` samples,
    /// before any restart.
    pub open spec fn sought(self, position: u32, total: int) -> Transport {
        Transport {
            position: if position > UNIT {
                UNIT
            } else {
                position
            },
            sample_index: index_of(position, total) as u64,
            playing: false,
            status: PlaybackStatus::Seeked,
            ..self
        }
    }

    /// Starts a run of the sample named `asset_name` from the current position.
    pub fn start(&mut self, registry: &SamplesManager, asset_name: &str)
        ensures
            *final(self) == old(self).started(registry, asset_name@),
    {
        let target = registry.get_playback_target(self.position, asset_name);
        self.stop_target = match target {
            Some(t) => if self.position >= t {
                None
            } else {
                Some(t)
            },
            None => None,
        };
        self.playing = true;
        self.status = PlaybackStatus::Playing;
    }

    /// Ends the run. The position stays.
    pub fn stop(&mut self)
        ensures
            *final(self) == (Transport { playing: false, ..*old(self) }),
    {
        self.playing = false;
    }

    /// Records that the output device failed: the run ends.
    pub fn fail(&mut self)
        ensures
            *final(self) == (Transport {
                playing: false,
                status: PlaybackStatus::DeviceError,
                ..*old(self)
            }),
    {
        self.playing = false;
        self.status = PlaybackStatus::DeviceError;
    }

    /// Pauses a run that is under way; from rest, cues the transport and
    /// starts a run. Returns whether a run was started.
    pub fn toggle(&mut self, registry: &SamplesManager, asset_name: &str, total_samples: usize) -> (started: bool)
        ensures
            started == !old(self).playing,
            old(self).playing ==> *final(self) == (Transport {
                playing: false,
                status: PlaybackStatus::Paused,
                ..*old(self)
            }),
            !old(self).playing ==> *final(self) == old(self).cued(
                registry,
                total_samples as int,
            ).started(registry, asset_name@),
    {
        if self.playing {
            self.playing = false;
            self.status = PlaybackStatus::Paused;
            return false;
        }
        match registry.get_playback_mode() {
            crate::samples::PlaybackMode::CustomRegion { region_id } => {
                if let Some(region) = registry.get_region_by_id(region_id) {
                    if let Some(mark) = registry.get_mark_by_id(region.from) {
                        self.position = mark.position;
                        self.sample_index = sample_index_of(mark.position, total_samples);
                    }
                }
            },
            _ => {
                if self.position >= NEAR_END {
                    self.position = 0;
                    self.sample_index = 0;
                }
            },
        }
        self.start(registry, asset_name);
        true
    }

    /// Moves to `normalized_pos`, held at the end of the asset. A run that was
    /// under way starts anew from there, with a new stop target. Returns
    /// whether it did.
    pub fn seek(
        &mut self,
        normalized_pos: u32,
        registry: &SamplesManager,
        asset_name: &str,
        total_samples: usize,
    ) -> (restarted: bool)
        ensures
            restarted == old(self).playing,
            !old(self).playing ==> *final(self) == old(self).sought(
                normalized_pos,
                total_samples as int,
            ),
            old(self).playing ==> *final(self) == old(self).sought(
                normalized_pos,
                total_samples as int,
            ).started(registry, asset_name@),
            final(self).position <= UNIT,
            final(self).sample_index <= total_samples,
    {
        let was_playing = self.playing;
        self.playing = false;
        self.position = if normalized_pos > UNIT {
            UNIT
        } else {
            normalized_pos
        };
        self.sample_index = sample_index_of(normalized_pos, total_samples);
        self.status = PlaybackStatus::Seeked;
        if was_playing {
            self.start(registry, asset_name);
        }
        was_playing
    }
}

impl Transport {
    /// The transport after one callback over a buffer with room for `room`
    /// output frames.
    ///
    /// At rest nothing changes. A run moves on by the source frames it plays
    /// and publishes its position; a run that halts comes to rest with the
    /// reason as its status.
    pub open spec fn filled(self, pcm_len: int, channels: u16, room: int) -> Transport {
        if !self.playing {
            self
        } else {
            let index = self.sample_index as int;
            let played = frames_played(index, channels, pcm_len, self.stop_target, room);
            let halts = run_halts(index, channels, pcm_len, self.stop_target, room);
            let moved = index + played * channels;
            Transport {
                sample_index: moved as u64,
                position: position_of(moved, pcm_len, self.position),
                playing: !halts,
                status: if halts {
                    halt_status(index, channels, pcm_len, self.stop_target, room)
                } else {
                    self.status
                },
                ..self
            }
        }
    }

    /// One audio callback: fills the interleaved buffer `out` of a device
    /// with `out_channels` channels from `pcm`, which has `channels` channels.
    ///
    /// At rest the buffer is silenced. A run plays one source frame per
    /// output frame until the buffer is full or the run reaches its fence;
    /// the rest of the buffer is silenced. An output channel beyond the
    /// source's channels repeats the last source channel.
    pub fn fill(&mut self, pcm: &Vec<i32>, channels: u16, out: &mut Vec<i32>, out_channels: usize)
        ensures
            final(out)@.len() == old(out)@.len(),
            *final(self) == old(self).filled(
                pcm@.len() as int,
                channels,
                output_frames(old(out)@.len() as int, out_channels),
            ),
            forall|i: int|
                0 <= i < old(out)@.len() ==> #[trigger] final(out)@[i] == if old(self).playing {
                    scrub_sample(
                        pcm@,
                        channels,
                        out_channels,
                        old(self).sample_index as int,
                        frames_played(
                            old(self).sample_index as int,
                            channels,
                            pcm@.len() as int,
                            old(self).stop_target,
                            output_frames(old(out)@.len() as int, out_channels),
                        ),
                        i,
                    )
                } else {
                    0
                },
    {
        let len = out.len();
        if !self.playing {
            silence_from(out, 0);
            return ;
        }
        if channels == 0 {
            silence_from(out, 0);
            self.playing = false;
            self.status = PlaybackStatus::Finished;
            self.position = position_at(self.sample_index, pcm.len(), self.position);
            return ;
        }
        let ch: usize = channels as usize;
        let frames: usize = pcm.len() / ch;
        let room: usize = if out_channels == 0 {
            0
        } else {
            len / out_channels
        };
        let stop: usize = fence_of(self.stop_target, frames);
        let index: u64 = self.sample_index;
        let first: u64 = index / (ch as u64);
        let frac: u64 = index % (ch as u64);
        proof {
            vstd::arithmetic::div_mod::lemma_fundamental_div_mod(pcm@.len() as int, ch as int);
            vstd::arithmetic::div_mod::lemma_fundamental_div_mod(index as int, ch as int);
            vstd::arithmetic::mul::lemma_mul_is_commutative(frames as int, ch as int);
            vstd::arithmetic::mul::lemma_mul_is_commutative(first as int, ch as int);
            if out_channels > 0 {
                vstd::arithmetic::div_mod::lemma_fundamental_div_mod(
                    len as int,
                    out_channels as int,
                );
                vstd::arithmetic::mul::lemma_mul_is_commutative(room as int, out_channels as int);
            }
        }
        let played: usize = if first >= stop as u64 {
            0
        } else if stop - (first as usize) < room {
            stop - (first as usize)
        } else {
            room
        };
        assert(played == frames_played(
            index as int,
            channels,
            pcm@.len() as int,
            self.stop_target,
            room as int,
        ));
        proof {
            if played > 0 {
                assert((first + played + 1) * ch <= frames * ch) by (nonlinear_arith)
                    requires
                        first + played + 1 <= frames,
                        0 <= ch,
                ;
            }
            assert(played * out_channels <= room * out_channels) by (nonlinear_arith)
                requires
                    played <= room,
                    0 <= out_channels,
            ;
            assert(0 <= first * ch) by (nonlinear_arith)
                requires
                    0 <= first,
                    0 <= ch,
            ;
        }
        let mut k: usize = 0;
        let mut base: usize = 0;
        let mut source: usize = 0;
        if played > 0 {
            assert(first * ch <= (first + played + 1) * ch) by (nonlinear_arith)
                requires
                    0 <= first,
                    0 <= played,
                    0 <= ch,
            ;
            source = (first as usize) * ch;
        }
        assert(base == k * out_channels && (played > 0 ==> source == (first + k) * ch))
            by (nonlinear_arith)
            requires
                base == 0,
                k == 0,
                played > 0 ==> source == first * ch,
        ;
        while k < played
            invariant
                k <= played,
                0 < ch == channels,
                played > 0 ==> out_channels > 0,
                out@.len() == len,
                frac == index % (ch as u64),
                first == index / (ch as u64),
                frac < ch,
                base == k * out_channels,
                base <= played * out_channels <= len,
                played > 0 ==> source == (first + k) * ch,
                played > 0 ==> (first + played + 1) * ch <= pcm@.len(),
                pcm@.len() <= usize::MAX,
                forall|i: int|
                    0 <= i < base ==> out@[i] == scrub_sample(
                        pcm@,
                        channels,
                        out_channels,
                        index as int,
                        played as int,
                        i,
                    ),
            decreases played - k,
        {
            proof {
                assert((k + 1) * out_channels == base + out_channels && (k + 1) * out_channels
                    <= played * out_channels && base + out_channels <= played * out_channels)
                    by (nonlinear_arith)
                    requires
                        base == k * out_channels,
                        k + 1 <= played,
                        0 <= out_channels,
                ;
                assert((first + k + 1) * ch == source + ch && (first + k + 2) * ch == source + ch
                    + ch && (first + k + 2) * ch <= (first + played + 1) * ch) by (nonlinear_arith)
                    requires
                        source == (first + k) * ch,
                        k + 1 <= played,
                        0 <= ch,
                ;
            }
            let mut c: usize = 0;
            while c < out_channels
                invariant
                    c <= out_channels,
                    k < played,
                    0 < ch == channels,
                    out@.len() == len,
                    frac == index % (ch as u64),
                    first == index / (ch as u64),
                    frac < ch,
                    base == k * out_channels,
                    base + out_channels <= played * out_channels <= len,
                    source == (first + k) * ch,
                    (first + k + 1) * ch == source + ch,
                    source + ch + ch <= pcm@.len() <= usize::MAX,
                    forall|i: int|
                        0 <= i < base + c ==> out@[i] == scrub_sample(
                            pcm@,
                            channels,
                            out_channels,
                            index as int,
                            played as int,
                            i,
                        ),
                decreases out_channels - c,
            {
                proof {
                    lemma_flat_index(k as int, c as int, out_channels as int);
                }
                let from: usize = if c < ch {
                    c
                } else {
                    ch - 1
                };
                let below = pcm[source + from];
                let above = pcm[source + ch + from];
                let sample = ramp_sample(below, above, frac as u128, ch as u64);
                out.set(base + c, sample);
                c += 1;
            }
            base += out_channels;
            source += ch;
            k += 1;
        }
        silence_from(out, base);
        assert(base == played * out_channels);
        proof {
            if played > 0 {
                assert(first * ch + frac + played * ch < (first + played + 1) * ch)
                    by (nonlinear_arith)
                    requires
                        frac < ch,
                ;
            } else {
                assert(played * ch == 0) by (nonlinear_arith)
                    requires
                        played == 0,
                ;
            }
        }
        let moved: u64 = index + ((played * ch) as u64);
        let halts = played < room;
        self.sample_index = moved;
        self.position = position_at(moved, pcm.len(), self.position);
        if halts {
            self.playing = false;
            self.status = if reached_target(self.stop_target, frames, first + played as u64) {
                PlaybackStatus::StoppedAtMarker
            } else {
                PlaybackStatus::Finished
            };
        }
    }
}

/// A run halts exactly at its stop target. Where the target lies at or ahead
/// of the cursor, before the last frame of the PCM, and the buffer has room
/// to reach it, the callback plays the frames up to the target and no more,
/// comes to rest with the cursor on the target's frame, and reports that it
/// stopped at the marker, not that it finished.
pub proof fn law_run_halts_at_its_target(
    transport: Transport,
    pcm_len: int,
    channels: u16,
    room: int,
    target: u32,
)
    requires
        transport.playing,
        transport.stop_target == Some(target),
        channels > 0,
        0 <= pcm_len <= u64::MAX,
        0 <= room,
        frame_count(transport.sample_index as int, channels) <= frame_of(
            target,
            frame_count(pcm_len, channels),
        ) < frame_count(pcm_len, channels) - 1,
        frame_of(target, frame_count(pcm_len, channels)) - frame_count(
            transport.sample_index as int,
            channels,
        ) < room,
    ensures
        ({
            let ran = transport.filled(pcm_len, channels, room);
            let at = frame_of(target, frame_count(pcm_len, channels));
            &&& !ran.playing
            &&& ran.status == PlaybackStatus::StoppedAtMarker
            &&& frame_count(ran.sample_index as int, channels) == at
            &&& frames_played(
                transport.sample_index as int,
                channels,
                pcm_len,
                transport.stop_target,
                room,
            ) == at - frame_count(transport.sample_index as int, channels)
        }),
{
    let ch = channels as int;
    let index = transport.sample_index as int;
    let frames = frame_count(pcm_len, channels);
    let first = frame_count(index, channels);
    let at = frame_of(target, frames);
    let played = at - first;
    vstd::arithmetic::div_mod::lemma_fundamental_div_mod(index, ch);
    vstd::arithmetic::div_mod::lemma_fundamental_div_mod(pcm_len, ch);
    let rest = index % ch;
    assert(index + played * ch == at * ch + rest) by (nonlinear_arith)
        requires
            index == ch * first + rest,
            played == at - first,
    ;
    vstd::arithmetic::div_mod::lemma_fundamental_div_mod_converse(at * ch + rest, ch, at, rest);
    assert(at * ch + rest < frames * ch) by (nonlinear_arith)
        requires
            at + 1 <= frames,
            0 <= rest < ch,
    ;
    assert(frames * ch <= pcm_len) by (nonlinear_arith)
        requires
            pcm_len == ch * frames + pcm_len % ch,
            0 <= pcm_len % ch,
    ;
    assert(0 <= at * ch) by (nonlinear_arith)
        requires
            0 <= at,
            0 <= ch,
    ;
}

/// A run never plays the frame at its fence or any frame behind it: after a
/// callback the cursor of a run that started before the fence is at the
/// fence at most.
pub proof fn law_run_stays_before_the_fence(
    transport: Transport,
    pcm_len: int,
    channels: u16,
    room: int,
)
    requires
        transport.playing,
        channels > 0,
        0 <= pcm_len <= u64::MAX,
        0 <= room,
        frame_count(transport.sample_index as int, channels) <= fence(
            transport.stop_target,
            frame_count(pcm_len, channels),
        ),
    ensures
        frame_count(
            transport.filled(pcm_len, channels, room).sample_index as int,
            channels,
        ) <= fence(transport.stop_target, frame_count(pcm_len, channels)),
        transport.filled(pcm_len, channels, room).sample_index >= transport.sample_index,
{
    let ch = channels as int;
    let index = transport.sample_index as int;
    let frames = frame_count(pcm_len, channels);
    let first = frame_count(index, channels);
    let stop = fence(transport.stop_target, frames);
    let played = frames_played(index, channels, pcm_len, transport.stop_target, room);
    vstd::arithmetic::div_mod::lemma_fundamental_div_mod(index, ch);
    vstd::arithmetic::div_mod::lemma_fundamental_div_mod(pcm_len, ch);
    vstd::arithmetic::div_mod::lemma_div_pos_is_pos(pcm_len, ch);
    let rest = index % ch;
    let after = first + played;
    assert(0 <= played);
    assert(index + played * ch == after * ch + rest) by (nonlinear_arith)
        requires
            index == ch * first + rest,
            after == first + played,
    ;
    assert(0 <= played * ch) by (nonlinear_arith)
        requires
            0 <= played,
            0 <= ch,
    ;
    vstd::arithmetic::div_mod::lemma_fundamental_div_mod_converse(
        after * ch + rest,
        ch,
        after,
        rest,
    );
    if frames > 0 {
        assert(after * ch + rest < frames * ch) by (nonlinear_arith)
            requires
                after + 1 <= frames,
                0 <= rest < ch,
        ;
        assert(frames * ch <= pcm_len) by (nonlinear_arith)
            requires
                pcm_len == ch * frames + pcm_len % ch,
                0 <= pcm_len % ch,
        ;
    }
}

/// One source frame goes into each output frame, whatever the number of
/// channels of the device: a run that has at least as many frames before its
/// fence as the buffer has output frames fills the buffer, stays under way,
/// and moves its cursor on by exactly that many source frames.
pub proof fn law_one_source_frame_per_output_frame(
    transport: Transport,
    pcm_len: int,
    channels: u16,
    out_len: int,
    out_channels: usize,
)
    requires
        transport.playing,
        channels > 0,
        out_channels > 0,
        0 <= pcm_len <= u64::MAX,
        0 <= out_len,
        frame_count(transport.sample_index as int, channels) + output_frames(out_len, out_channels)
            <= fence(transport.stop_target, frame_count(pcm_len, channels)),
    ensures
        ({
            let room = output_frames(out_len, out_channels);
            let ran = transport.filled(pcm_len, channels, room);
            &&& ran.playing
            &&& ran.status == transport.status
            &&& frames_played(
                transport.sample_index as int,
                channels,
                pcm_len,
                transport.stop_target,
                room,
            ) == room
            &&& ran.sample_index == transport.sample_index + room * channels
            &&& frame_count(ran.sample_index as int, channels) == frame_count(
                transport.sample_index as int,
                channels,
            ) + room
        }),
{
    let ch = channels as int;
    let index = transport.sample_index as int;
    let frames = frame_count(pcm_len, channels);
    let first = frame_count(index, channels);
    let room = output_frames(out_len, out_channels);
    vstd::arithmetic::div_mod::lemma_fundamental_div_mod(index, ch);
    vstd::arithmetic::div_mod::lemma_fundamental_div_mod(pcm_len, ch);
    vstd::arithmetic::div_mod::lemma_div_pos_is_pos(out_len, out_channels as int);
    vstd::arithmetic::div_mod::lemma_div_pos_is_pos(pcm_len, ch);
    let rest = index % ch;
    let after = first + room;
    assert(index + room * ch == after * ch + rest) by (nonlinear_arith)
        requires
            index == ch * first + rest,
            after == first + room,
    ;
    assert(0 <= room * ch) by (nonlinear_arith)
        requires
            0 <= room,
            0 <= ch,
    ;
    vstd::arithmetic::div_mod::lemma_fundamental_div_mod_converse(
        after * ch + rest,
        ch,
        after,
        rest,
    );
    if frames > 0 {
        assert(after * ch + rest < frames * ch) by (nonlinear_arith)
            requires
                after + 1 <= frames,
                0 <= rest < ch,
        ;
        assert(frames * ch <= pcm_len) by (nonlinear_arith)
            requires
                pcm_len == ch * frames + pcm_len % ch,
                0 <= pcm_len % ch,
        ;
    }
}

} // verus!
