//! The polyphonic mixer: a bounded pool of voices summed into one buffer.

use crate::units::{clip, lemma_flat_index, mix_add, UNIT};
use crate::voice::{lemma_sample_out_fits, Voice};
use vstd::prelude::*;

verus! {

/// The most voices that sound at once.
pub const MAX_VOICES: usize = 16;

/// The newest `cap` elements of `voices`, in their order; all of them when
/// there are no more than `cap`.
pub open spec fn newest(voices: Seq<Voice>, cap: nat) -> Seq<Voice> {
    if voices.len() <= cap {
        voices
    } else {
        voices.subrange(voices.len() - cap, voices.len() as int)
    }
}

/// A voice let go: a note that is still held starts its release; a voice that
/// is ringing out already goes on from where it is and is not started over.
pub open spec fn let_go(voice: Voice) -> Voice {
    if voice.envelope.gate_open {
        Voice { envelope: voice.envelope.released(), ..voice }
    } else {
        voice
    }
}

/// Each voice let go.
pub open spec fn release_all(voices: Seq<Voice>) -> Seq<Voice> {
    Seq::new(voices.len(), |i: int| let_go(voices[i]))
}

/// Each voice after one render.
pub open spec fn render_all(voices: Seq<Voice>, sample_rate: u32) -> Seq<Voice> {
    Seq::new(voices.len(), |i: int| voices[i].rendered(sample_rate))
}

/// Each voice after `n` renders.
pub open spec fn render_all_n(voices: Seq<Voice>, sample_rate: u32, n: nat) -> Seq<Voice>
    decreases n,
{
    if n == 0 {
        voices
    } else {
        render_all(render_all_n(voices, sample_rate, (n - 1) as nat), sample_rate)
    }
}

/// What one voice adds to output channel `channel` of the next frame:
/// its rendered sample, or nothing once it has stopped sounding.
pub open spec fn voice_part(voice: Voice, sample_rate: u32, channel: int) -> int {
    if voice.sounding() {
        voice.sample_out(sample_rate, channel)
    } else {
        0
    }
}

/// Output channel `channel` of the next frame: the voices' parts added up in
/// pool order, the running sum hard-clipped to full scale after each addition.
pub open spec fn frame_sum(voices: Seq<Voice>, sample_rate: u32, channel: int) -> int
    decreases voices.len(),
{
    if voices.len() == 0 {
        0
    } else {
        clip(
            frame_sum(voices.drop_last(), sample_rate, channel) + voice_part(
                voices.last(),
                sample_rate,
                channel,
            ),
        )
    }
}

/// A voice that the pool gives up: its envelope has run out or its cursor has
/// reached the end of its PCM.
pub open spec fn spent(voice: Voice) -> bool {
    voice.envelope.phase == crate::adsr::ADSRPhase::Done || voice.exhausted()
}

/// The voices that stay in the pool, in their order.
pub open spec fn survivors(voices: Seq<Voice>) -> Seq<Voice> {
    voices.filter(|v: Voice| !spent(v))
}

/// The number of whole frames in a buffer of `len` samples; a channel count
/// of zero counts as one.
pub open spec fn buffer_frames(len: nat, out_channels: usize) -> nat {
    if out_channels == 0 {
        len
    } else {
        len / (out_channels as nat)
    }
}

/// The pool that a callback renders from: the old pool and the queued voices
/// after eviction, with every note let go when the sequencer has stopped.
pub open spec fn started(pool: Seq<Voice>, queue: Seq<Voice>, playing: bool) -> Seq<Voice> {
    let admitted = newest(pool + queue, MAX_VOICES as nat);
    if playing {
        admitted
    } else {
        release_all(admitted)
    }
}

/// Sample `i` of an interleaved buffer of `len` samples that `voices` are
/// mixed into: channel `i % out_channels` of frame `i / out_channels`, mixed
/// from the voices as that many renders have left them. Samples behind the
/// last whole frame are silent.
pub open spec fn mixed_sample(
    voices: Seq<Voice>,
    sample_rate: u32,
    out_channels: usize,
    len: nat,
    i: int,
) -> int {
    if out_channels > 0 && i < buffer_frames(len, out_channels) * out_channels {
        frame_sum(
            render_all_n(voices, sample_rate, (i / (out_channels as int)) as nat),
            sample_rate,
            i % (out_channels as int),
        )
    } else {
        0
    }
}

/// A mixed sample always lies within full scale.
pub proof fn lemma_frame_sum_in_range(voices: Seq<Voice>, sample_rate: u32, channel: int)
    ensures
        -(UNIT as int) <= frame_sum(voices, sample_rate, channel) <= UNIT,
    decreases voices.len(),
{
    if voices.len() > 0 {
        lemma_frame_sum_in_range(voices.drop_last(), sample_rate, channel);
    }
}

/// The pool of active voices.
pub struct Mixer {
    pub voices: Vec<Voice>,
}

impl Mixer {
    /// A mixer with an empty pool.
    pub fn new() -> (r: Self)
        ensures
            r.voices@.len() == 0,
    {
        Mixer { voices: Vec::new() }
    }

    /// The number of voices in the pool.
    pub fn active(&self) -> (n: usize)
        ensures
            n == self.voices@.len(),
    {
        self.voices.len()
    }

    /// Drops every voice in the pool.
    pub fn clear(&mut self)
        ensures
            final(self).voices@.len() == 0,
    {
        self.voices.clear();
    }

    /// Takes every voice out of `queue` into the pool, oldest first. Where the
    /// pool would hold more than [`MAX_VOICES`], the oldest voices leave.
    pub fn take_in(&mut self, queue: &mut Vec<Voice>)
        ensures
            final(queue)@.len() == 0,
            final(self).voices@ == newest(old(self).voices@ + old(queue)@, MAX_VOICES as nat),
            final(self).voices@.len() <= MAX_VOICES,
    {
        let ghost all = self.voices@ + queue@;
        self.voices.append(queue);
        while self.voices.len() > MAX_VOICES
            invariant
                all == old(self).voices@ + old(queue)@,
                queue@.len() == 0,
                self.voices@.len() <= all.len(),
                self.voices@.len() >= MAX_VOICES || self.voices@.len() == all.len(),
                self.voices@ == all.subrange(all.len() - self.voices@.len(), all.len() as int),
            decreases self.voices@.len(),
        {
            self.voices.remove(0);
        }
        assert(self.voices@ =~= newest(all, MAX_VOICES as nat));
    }

    /// Lets go of every note in the pool that is still held. Voices that are
    /// ringing out already are not started over.
    pub fn release(&mut self)
        ensures
            final(self).voices@ == release_all(old(self).voices@),
    {
        let mut k: usize = 0;
        while k < self.voices.len()
            invariant
                k <= self.voices@.len() == old(self).voices@.len(),
                forall|i: int|
                    0 <= i < k ==> self.voices@[i] == release_all(old(self).voices@)[i],
                forall|i: int| k <= i < self.voices@.len() ==> self.voices@[i] == old(self).voices@[i],
            decreases self.voices@.len() - k,
        {
            if self.voices[k].envelope.gate_open {
                self.voices[k].release();
            }
            k += 1;
        }
        assert(self.voices@ =~= release_all(old(self).voices@));
    }

    /// Renders one frame of `out_channels` samples from every voice in the
    /// pool and returns their clipped sum.
    pub fn mix_frame(&mut self, sample_rate: u32, out_channels: usize) -> (frame: Vec<i32>)
        ensures
            frame@.len() == out_channels,
            forall|c: int|
                0 <= c < out_channels ==> frame@[c] == frame_sum(
                    old(self).voices@,
                    sample_rate,
                    c,
                ),
            forall|c: int| 0 <= c < out_channels ==> -(UNIT as int) <= #[trigger] frame@[c] <= UNIT,
            final(self).voices@ == render_all(old(self).voices@, sample_rate),
    {
        let mut frame: Vec<i32> = Vec::with_capacity(out_channels);
        while frame.len() < out_channels
            invariant
                frame@.len() <= out_channels,
                forall|c: int| 0 <= c < frame@.len() ==> frame@[c] == 0,
            decreases out_channels - frame@.len(),
        {
            frame.push(0);
        }
        let ghost before = self.voices@;
        let mut k: usize = 0;
        assert(before.take(0) =~= Seq::<Voice>::empty());
        while k < self.voices.len()
            invariant
                before == old(self).voices@,
                k <= self.voices@.len() == before.len(),
                frame@.len() == out_channels,
                forall|c: int|
                    0 <= c < out_channels ==> frame@[c] == frame_sum(
                        before.take(k as int),
                        sample_rate,
                        c,
                    ),
                forall|i: int| 0 <= i < k ==> self.voices@[i] == before[i].rendered(sample_rate),
                forall|i: int| k <= i < before.len() ==> self.voices@[i] == before[i],
            decreases before.len() - k,
        {
            let ghost voice = before[k as int];
            let ghost upto = before.take(k as int);
            assert(before.take(k + 1).drop_last() =~= upto);
            assert(before.take(k + 1).last() == voice);
            let rendered = self.voices[k].render(sample_rate, out_channels);
            match rendered {
                Some(samples) => {
                    let mut c: usize = 0;
                    while c < out_channels
                        invariant
                            c <= out_channels,
                            k < before.len(),
                            frame@.len() == out_channels,
                            samples@ == voice.frame(sample_rate, out_channels),
                            voice.sounding(),
                            before.take(k + 1).drop_last() == upto,
                            before.take(k + 1).last() == voice,
                            forall|d: int|
                                0 <= d < c ==> frame@[d] == frame_sum(
                                    before.take(k + 1),
                                    sample_rate,
                                    d,
                                ),
                            forall|d: int|
                                c <= d < out_channels ==> frame@[d] == frame_sum(
                                    upto,
                                    sample_rate,
                                    d,
                                ),
                        decreases out_channels - c,
                    {
                        proof {
                            lemma_sample_out_fits(voice, sample_rate, c as int);
                        }
                        let sum = mix_add(frame[c], samples[c]);
                        frame.set(c, sum);
                        c += 1;
                    }
                },
                None => {
                    assert forall|c: int| 0 <= c < out_channels implies frame@[c] == frame_sum(
                        before.take(k + 1),
                        sample_rate,
                        c,
                    ) by {
                        lemma_frame_sum_in_range(upto, sample_rate, c);
                    }
                },
            }
            k += 1;
        }
        proof {
            assert(before.take(k as int) =~= before);
            assert(self.voices@ =~= render_all(before, sample_rate));
            assert forall|c: int| 0 <= c < out_channels implies -(UNIT as int)
                <= #[trigger] frame@[c] <= UNIT by {
                lemma_frame_sum_in_range(before, sample_rate, c);
            }
        }
        frame
    }

    /// One audio callback over the interleaved buffer `out`.
    ///
    /// Takes in the queued voices, silences the buffer, lets go of every note
    /// still held when the sequencer is not `playing`, mixes every whole frame
    /// of the buffer from the pool, and drops the voices that are spent.
    ///
    /// With the sequencer stopped, only the voices whose note is still held
    /// are let go, not every voice in the pool. Letting a voice go starts its
    /// release from the beginning, and a stopped sequencer is seen again by
    /// every callback that follows: if each of them let every voice go, a
    /// release longer than one buffer would be set back to its start buffer
    /// after buffer and never run out. A voice that is ringing out already
    /// therefore goes on from where it is, so that every tail ends.
    pub fn process(
        &mut self,
        queue: &mut Vec<Voice>,
        out: &mut Vec<i32>,
        out_channels: usize,
        sample_rate: u32,
        playing: bool,
    )
        ensures
            final(queue)@.len() == 0,
            final(out)@.len() == old(out)@.len(),
            forall|i: int|
                0 <= i < old(out)@.len() ==> #[trigger] final(out)@[i] == mixed_sample(
                    started(old(self).voices@, old(queue)@, playing),
                    sample_rate,
                    out_channels,
                    old(out)@.len(),
                    i,
                ),
            forall|i: int|
                0 <= i < old(out)@.len() ==> -(UNIT as int) <= #[trigger] final(out)@[i] <= UNIT,
            final(self).voices@ == survivors(
                render_all_n(
                    started(old(self).voices@, old(queue)@, playing),
                    sample_rate,
                    buffer_frames(old(out)@.len(), out_channels),
                ),
            ),
            final(self).voices@.len() <= MAX_VOICES,
    {
        let ghost start = started(self.voices@, queue@, playing);
        self.take_in(queue);
        let len = out.len();
        let mut i: usize = 0;
        while i < len
            invariant
                i <= len == out@.len(),
                forall|k: int| 0 <= k < i ==> out@[k] == 0,
            decreases len - i,
        {
            out.set(i, 0);
            i += 1;
        }
        if !playing {
            self.release();
        }
        let frames: usize = if out_channels == 0 {
            len
        } else {
            len / out_channels
        };
        proof {
            if out_channels > 0 {
                vstd::arithmetic::div_mod::lemma_fundamental_div_mod(
                    len as int,
                    out_channels as int,
                );
                vstd::arithmetic::div_mod::lemma_mod_bound(len as int, out_channels as int);
                vstd::arithmetic::mul::lemma_mul_is_commutative(
                    frames as int,
                    out_channels as int,
                );
            }
        }
        let mut j: usize = 0;
        let mut base: usize = 0;
        while j < frames
            invariant
                j <= frames == buffer_frames(len as nat, out_channels),
                out@.len() == len,
                out_channels > 0 ==> frames * out_channels <= len,
                base == j * out_channels,
                base <= len,
                self.voices@ == render_all_n(start, sample_rate, j as nat),
                self.voices@.len() <= MAX_VOICES,
                forall|k: int|
                    0 <= k < base ==> out@[k] == mixed_sample(
                        start,
                        sample_rate,
                        out_channels,
                        len as nat,
                        k,
                    ),
                forall|k: int| base <= k < len ==> out@[k] == 0,
            decreases frames - j,
        {
            let frame = self.mix_frame(sample_rate, out_channels);
            proof {
                assert((j + 1) * out_channels == base + out_channels) by (nonlinear_arith)
                    requires
                        base == j * out_channels,
                ;
                if out_channels > 0 {
                    assert((j + 1) * out_channels <= frames * out_channels) by (nonlinear_arith)
                        requires
                            j + 1 <= frames,
                            0 <= out_channels,
                    ;
                }
            }
            let mut c: usize = 0;
            while c < out_channels
                invariant
                    c <= out_channels,
                    j < frames == buffer_frames(len as nat, out_channels),
                    out@.len() == len,
                    frame@.len() == out_channels,
                    base == j * out_channels,
                    base + out_channels <= frames * out_channels <= len,
                    forall|d: int|
                        0 <= d < out_channels ==> frame@[d] == frame_sum(
                            render_all_n(start, sample_rate, j as nat),
                            sample_rate,
                            d,
                        ),
                    forall|k: int|
                        0 <= k < base + c ==> out@[k] == mixed_sample(
                            start,
                            sample_rate,
                            out_channels,
                            len as nat,
                            k,
                        ),
                    forall|k: int| base + c <= k < len ==> out@[k] == 0,
                decreases out_channels - c,
            {
                proof {
                    lemma_flat_index(j as int, c as int, out_channels as int);
                }
                out.set(base + c, frame[c]);
                c += 1;
            }
            base += out_channels;
            j += 1;
        }
        self.reclaim();
        proof {
            assert forall|k: int| 0 <= k < len implies out@[k] == mixed_sample(
                start,
                sample_rate,
                out_channels,
                len as nat,
                k,
            ) by {
                if out_channels > 0 && k >= base {
                    assert(base == frames * out_channels);
                }
            }
            assert forall|k: int| 0 <= k < len implies -(UNIT as int) <= #[trigger] out@[k]
                <= UNIT by {
                if out_channels > 0 {
                    lemma_frame_sum_in_range(
                        render_all_n(start, sample_rate, (k / (out_channels as int)) as nat),
                        sample_rate,
                        k % (out_channels as int),
                    );
                }
            }
        }
    }

    /// Drops the voices that are spent and keeps the others in their order.
    pub fn reclaim(&mut self)
        ensures
            final(self).voices@ == survivors(old(self).voices@),
            final(self).voices@.len() <= old(self).voices@.len(),
    {
        let ghost before = self.voices@;
        let ghost keep = |v: Voice| !spent(v);
        let ghost mut seen: int = 0;
        let mut i: usize = 0;
        assert(before.take(0) =~= Seq::<Voice>::empty());
        assert(self.voices@ =~= before.take(0).filter(keep) + before.skip(0));
        while i < self.voices.len()
            invariant
                before == old(self).voices@,
                keep == (|v: Voice| !spent(v)),
                0 <= seen <= before.len(),
                i == before.take(seen).filter(keep).len(),
                self.voices@ == before.take(seen).filter(keep) + before.skip(seen),
            decreases before.len() - seen,
        {
            proof {
                reveal(Seq::filter);
                assert(self.voices@[i as int] == before[seen]);
                assert(before.take(seen + 1).drop_last() =~= before.take(seen));
                assert(before.take(seen + 1).last() == before[seen]);
                assert(before.skip(seen).skip(1) =~= before.skip(seen + 1));
            }
            let gone = self.voices[i].is_finished() || self.voices[i].is_exhausted();
            if gone {
                self.voices.remove(i);
                assert(self.voices@ =~= before.take(seen + 1).filter(keep) + before.skip(seen + 1));
            } else {
                assert(self.voices@ =~= before.take(seen + 1).filter(keep) + before.skip(seen + 1));
                i += 1;
            }
            proof {
                seen = seen + 1;
            }
        }
        proof {
            assert(seen == before.len()) by {
                assert(self.voices@.len() == i + (before.len() - seen));
            }
            assert(before.take(seen) =~= before);
            assert(before.skip(seen) =~= Seq::<Voice>::empty());
        }
    }
}

/// Eviction is first in, first out: of the pool followed by a batch, the
/// newest [`MAX_VOICES`] stay, in their order, and whatever came before them
/// leaves. A batch of at least [`MAX_VOICES`] voices displaces the whole pool
/// and its own earliest voices.
pub proof fn law_oldest_leave_first(pool: Seq<Voice>, batch: Seq<Voice>)
    ensures
        ({
            let all = pool + batch;
            let kept = newest(all, MAX_VOICES as nat);
            &&& kept.len() == if all.len() <= MAX_VOICES {
                all.len()
            } else {
                MAX_VOICES as nat
            }
            &&& forall|i: int|
                0 <= i < kept.len() ==> kept[i] == all[all.len() - kept.len() + i]
            &&& batch.len() >= MAX_VOICES ==> kept == batch.subrange(
                batch.len() - MAX_VOICES,
                batch.len() as int,
            )
            &&& batch.len() <= MAX_VOICES && all.len() >= MAX_VOICES ==> kept == pool.subrange(
                all.len() - MAX_VOICES,
                pool.len() as int,
            ) + batch
        }),
{
    let all = pool + batch;
    let kept = newest(all, MAX_VOICES as nat);
    if batch.len() >= MAX_VOICES {
        assert(kept =~= batch.subrange(batch.len() - MAX_VOICES, batch.len() as int));
    }
    if batch.len() <= MAX_VOICES && all.len() >= MAX_VOICES {
        assert(kept =~= pool.subrange(all.len() - MAX_VOICES, pool.len() as int) + batch);
    }
}

/// The voices of a pool do not affect one another: after `n` frames each one
/// is where `n` renders of its own would have left it.
pub proof fn law_voices_render_independently(voices: Seq<Voice>, sample_rate: u32, n: nat)
    ensures
        render_all_n(voices, sample_rate, n).len() == voices.len(),
        forall|i: int|
            0 <= i < voices.len() ==> #[trigger] render_all_n(voices, sample_rate, n)[i]
                == voices[i].rendered_n(sample_rate, n),
    decreases n,
{
    if n > 0 {
        law_voices_render_independently(voices, sample_rate, (n - 1) as nat);
    }
}

/// A voice whose cursor stands past its source, as that of a voice started
/// at or behind the end of its PCM does, adds nothing to any frame of any
/// callback, and the pool drops it.
pub proof fn law_voice_past_its_source_adds_nothing(
    voice: Voice,
    sample_rate: u32,
    channel: int,
    n: nat,
)
    requires
        !voice.inside(),
    ensures
        voice_part(voice.rendered_n(sample_rate, n), sample_rate, channel) == 0,
        spent(voice.rendered_n(sample_rate, n)),
        voice.rendered_n(sample_rate, n).frame_pos == voice.frame_pos,
        !voice.rendered_n(sample_rate, n).inside(),
    decreases n,
{
    if n > 0 {
        law_voice_past_its_source_adds_nothing(voice, sample_rate, channel, (n - 1) as nat);
        let before = voice.rendered_n(sample_rate, (n - 1) as nat);
        assert(before.rendered(sample_rate).frames() == before.frames());
    }
}

} // verus!
