use rabies::adsr::ADSREnvelope;
use rabies::mixer::{Mixer, MAX_VOICES};
use rabies::units::UNIT;
use rabies::voice::Voice;
use std::sync::Arc;

fn unity() -> ADSREnvelope {
    ADSREnvelope::new(0, 0, UNIT, 0)
}

fn constant(level: i32, frames: usize, start: usize) -> Voice {
    Voice::new(Arc::new(vec![level; frames]), 1, start, UNIT, unity())
}

#[test]
fn seventeen_voices_in_one_batch_evict_the_first() {
    let mut mixer = Mixer::new();
    let mut batch: Vec<Voice> = (0..17).map(|i| constant(0, 64, i)).collect();
    mixer.take_in(&mut batch);
    assert!(batch.is_empty());
    assert_eq!(mixer.active(), 16);
    let starts: Vec<usize> = mixer.voices.iter().map(|v| v.start_frame).collect();
    assert_eq!(starts, (1..17).collect::<Vec<usize>>());
    assert!(!starts.contains(&0));
}

#[test]
fn eviction_takes_the_oldest_of_the_pool_first() {
    let mut mixer = Mixer::new();
    let mut first: Vec<Voice> = (0..10).map(|i| constant(0, 64, i)).collect();
    mixer.take_in(&mut first);
    assert_eq!(mixer.active(), 10);
    let mut second: Vec<Voice> = (10..19).map(|i| constant(0, 64, i)).collect();
    mixer.take_in(&mut second);
    assert_eq!(mixer.active(), MAX_VOICES);
    let starts: Vec<usize> = mixer.voices.iter().map(|v| v.start_frame).collect();
    assert_eq!(starts, (3..19).collect::<Vec<usize>>());
}

#[test]
fn a_batch_larger_than_the_pool_keeps_its_newest() {
    let mut mixer = Mixer::new();
    let mut batch: Vec<Voice> = (0..40).map(|i| constant(0, 64, i)).collect();
    mixer.take_in(&mut batch);
    let starts: Vec<usize> = mixer.voices.iter().map(|v| v.start_frame).collect();
    assert_eq!(starts, (24..40).collect::<Vec<usize>>());
}

#[test]
fn an_oversized_pool_is_cut_down_to_its_newest() {
    let mut mixer = Mixer { voices: (0..20).map(|i| constant(0, 64, i)).collect() };
    let mut batch: Vec<Voice> = Vec::new();
    mixer.take_in(&mut batch);
    let starts: Vec<usize> = mixer.voices.iter().map(|v| v.start_frame).collect();
    assert_eq!(starts, (4..20).collect::<Vec<usize>>());
}

#[test]
fn two_full_scale_voices_are_clipped() {
    let mut mixer = Mixer::new();
    let mut batch = vec![constant(1_000_000, 64, 0), constant(1_000_000, 64, 0)];
    let mut out = vec![7; 32];
    mixer.process(&mut batch, &mut out, 2, 44_100, true);
    for sample in &out {
        assert!(*sample >= -1_000_000 && *sample <= 1_000_000);
        assert_eq!(*sample, 1_000_000);
    }
    let mut batch = vec![constant(-1_000_000, 64, 0), constant(-1_000_000, 64, 0)];
    let mut other = Mixer::new();
    other.process(&mut batch, &mut out, 2, 44_100, true);
    for sample in &out {
        assert_eq!(*sample, -1_000_000);
    }
}

#[test]
fn clipping_happens_after_each_addition() {
    // 0.8 + 0.8 clips to 1.0, then -0.5 gives 0.5; an unclipped sum would give 1.1 -> 1.0.
    let mut mixer = Mixer::new();
    let mut batch =
        vec![constant(800_000, 8, 0), constant(800_000, 8, 0), constant(-500_000, 8, 0)];
    let frame = {
        mixer.take_in(&mut batch);
        mixer.mix_frame(44_100, 1)
    };
    assert_eq!(frame, vec![500_000]);
}

#[test]
fn mix_frame_sums_voices_and_advances_each() {
    let mut mixer = Mixer::new();
    let mut batch = vec![
        Voice::new(Arc::new(vec![100, 200, 300]), 1, 0, UNIT, unity()),
        Voice::new(Arc::new(vec![1_000, 2_000, 3_000]), 1, 1, UNIT, unity()),
    ];
    mixer.take_in(&mut batch);
    assert_eq!(mixer.mix_frame(44_100, 2), vec![2_100, 2_100]);
    assert_eq!(mixer.voices[0].frame_pos.frame, 1);
    assert_eq!(mixer.voices[1].frame_pos.frame, 2);
}

#[test]
fn process_fills_whole_frames_and_silences_the_rest() {
    let mut mixer = Mixer::new();
    let mut batch = vec![Voice::new(Arc::new(vec![10, 20, 30, 40, 50, 60]), 1, 0, UNIT, unity())];
    let mut out = vec![99; 7];
    mixer.process(&mut batch, &mut out, 2, 44_100, true);
    assert_eq!(out, vec![10, 10, 20, 20, 30, 30, 0]);
    assert_eq!(mixer.active(), 1);
    assert_eq!(mixer.voices[0].frame_pos.frame, 3);
}

#[test]
fn process_drops_voices_that_reach_their_end() {
    let mut mixer = Mixer::new();
    let mut batch = vec![
        Voice::new(Arc::new(vec![10, 20, 30]), 1, 0, UNIT, unity()),
        Voice::new(Arc::new(vec![1; 100]), 1, 0, UNIT, unity()),
    ];
    let mut out = vec![0; 4];
    mixer.process(&mut batch, &mut out, 1, 44_100, true);
    // The short voice plays 10 and 20; at its last frame a release of no length silences it.
    assert_eq!(out, vec![11, 21, 1, 1]);
    assert_eq!(mixer.active(), 1);
    assert_eq!(mixer.voices[0].pcm.len(), 100);
}

#[test]
fn a_stopped_sequencer_lets_the_voices_ring_out() {
    let mut mixer = Mixer::new();
    // Release of 4 ms at 1 kHz.
    let mut batch = vec![Voice::new(
        Arc::new(vec![1_000_000; 100]),
        1,
        0,
        UNIT,
        ADSREnvelope::new(0, 0, UNIT, 4_000),
    )];
    let mut out = vec![0; 6];
    mixer.process(&mut batch, &mut out, 1, 1_000, false);
    assert_eq!(out, vec![750_000, 500_000, 250_000, 0, 0, 0]);
    assert_eq!(mixer.active(), 0);
}

#[test]
fn release_lets_go_of_every_voice() {
    let mut mixer = Mixer::new();
    let mut batch = vec![constant(1, 8, 0), constant(2, 8, 0)];
    mixer.take_in(&mut batch);
    mixer.release();
    assert!(mixer.voices.iter().all(|v| !v.envelope.gate_open));
    assert_eq!(mixer.active(), 2);
}

#[test]
fn reclaim_keeps_the_order_of_the_survivors() {
    let mut mixer = Mixer::new();
    let mut batch = vec![
        constant(1, 8, 0),
        constant(2, 8, 7),
        constant(3, 8, 2),
        Voice::new(Arc::new(Vec::new()), 1, 0, UNIT, unity()),
        constant(5, 8, 4),
    ];
    mixer.take_in(&mut batch);
    mixer.reclaim();
    let starts: Vec<usize> = mixer.voices.iter().map(|v| v.start_frame).collect();
    assert_eq!(starts, vec![0, 2, 4]);
}

#[test]
fn without_output_channels_the_voices_still_advance() {
    let mut mixer = Mixer::new();
    let mut batch = vec![constant(1, 100, 0)];
    let mut out = vec![5; 3];
    mixer.process(&mut batch, &mut out, 0, 44_100, true);
    assert_eq!(out, vec![0, 0, 0]);
    assert_eq!(mixer.voices[0].frame_pos.frame, 3);
}

#[test]
fn an_empty_mixer_yields_silence() {
    let mut mixer = Mixer::new();
    let mut batch: Vec<Voice> = Vec::new();
    let mut out = vec![1, 2, 3, 4];
    mixer.process(&mut batch, &mut out, 2, 44_100, true);
    assert_eq!(out, vec![0; 4]);
    assert_eq!(mixer.active(), 0);
    assert_eq!(mixer.mix_frame(44_100, 3), vec![0, 0, 0]);
}

#[test]
fn a_tail_is_not_started_over_by_the_next_callback() {
    let mut mixer = Mixer::new();
    // Release of 8 ms at 1 kHz: eight ticks, spread over three callbacks.
    let mut batch = vec![Voice::new(
        Arc::new(vec![800_000; 100]),
        1,
        0,
        UNIT,
        ADSREnvelope::new(0, 0, UNIT, 8_000),
    )];
    let mut out = vec![0; 3];
    mixer.process(&mut batch, &mut out, 1, 1_000, false);
    assert_eq!(out, vec![700_000, 600_000, 500_000]);
    mixer.process(&mut batch, &mut out, 1, 1_000, false);
    assert_eq!(out, vec![400_000, 300_000, 200_000]);
    assert_eq!(mixer.active(), 1);
    mixer.process(&mut batch, &mut out, 1, 1_000, false);
    assert_eq!(out, vec![100_000, 0, 0]);
    assert_eq!(mixer.active(), 0);
}

#[test]
fn a_voice_started_past_its_source_adds_nothing_and_is_dropped() {
    let mut mixer = Mixer::new();
    let mut batch = vec![
        Voice::new(Arc::new(vec![1_000_000, 1_000_000]), 1, 2, UNIT, ADSREnvelope::new(0, 0, UNIT, 1_000_000)),
        Voice::new(Arc::new(vec![1_000_000, 1_000_000]), 1, 7, UNIT, ADSREnvelope::new(0, 0, UNIT, 1_000_000)),
        Voice::new(Arc::new(Vec::new()), 1, 0, UNIT, unity()),
        Voice::new(Arc::new(vec![5, 6, 7]), 0, 0, UNIT, unity()),
        constant(300, 64, 0),
    ];
    let mut out = vec![9; 4];
    mixer.process(&mut batch, &mut out, 1, 4, true);
    assert_eq!(out, vec![300, 300, 300, 300]);
    assert_eq!(mixer.active(), 1);
    assert_eq!(mixer.voices[0].pcm.len(), 64);
    let mut out: Vec<i32> = Vec::new();
    mixer.process(&mut batch, &mut out, 2, 4, true);
    assert!(out.is_empty());
}
