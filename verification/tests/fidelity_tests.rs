//! The engine computes in millionths; these tests hold its results against
//! the same formulas in floating point.

use rabies::adsr::{ADSREnvelope, ADSRPhase, EnvelopeState};
use rabies::mixer::Mixer;
use rabies::units::UNIT;
use rabies::voice::Voice;
use std::sync::Arc;

#[derive(Clone, Copy, PartialEq, Debug)]
enum Phase {
    Attack,
    Decay,
    Sustain,
    Release,
    Done,
}

struct FloatEnvelope {
    attack: f64,
    decay: f64,
    sustain: f64,
    release: f64,
    phase: Phase,
    elapsed: f64,
    gate_open: bool,
}

impl FloatEnvelope {
    fn new(adsr: &ADSREnvelope) -> Self {
        FloatEnvelope {
            attack: adsr.attack as f64 / 1e6,
            decay: adsr.decay as f64 / 1e6,
            sustain: adsr.sustain as f64 / 1e6,
            release: adsr.release as f64 / 1e6,
            phase: Phase::Attack,
            elapsed: 0.0,
            gate_open: true,
        }
    }

    fn release(&mut self) {
        if self.phase != Phase::Done {
            self.phase = Phase::Release;
            self.elapsed = 0.0;
            self.gate_open = false;
        }
    }

    fn get_gain(&mut self, sample_rate: f64) -> f64 {
        if self.phase == Phase::Done {
            return 0.0;
        }
        self.elapsed += 1.0 / sample_rate;
        match self.phase {
            Phase::Attack => {
                if self.attack <= 0.0 {
                    self.phase = Phase::Decay;
                    return 1.0;
                }
                let gain = (self.elapsed / self.attack).min(1.0);
                if gain >= 1.0 {
                    self.phase = Phase::Decay;
                    self.elapsed = 0.0;
                }
                gain
            }
            Phase::Decay => {
                if self.decay <= 0.0 {
                    self.phase = Phase::Sustain;
                    return self.sustain;
                }
                let progress = (self.elapsed / self.decay).min(1.0);
                let gain = 1.0 - (1.0 - self.sustain) * progress;
                if progress >= 1.0 {
                    self.phase = Phase::Sustain;
                    self.elapsed = 0.0;
                }
                gain
            }
            Phase::Sustain => {
                if !self.gate_open {
                    self.phase = Phase::Release;
                    self.elapsed = 0.0;
                }
                self.sustain
            }
            Phase::Release => {
                if self.release <= 0.0 {
                    self.phase = Phase::Done;
                    return 0.0;
                }
                let progress = (self.elapsed / self.release).min(1.0);
                let gain = self.sustain * (1.0 - progress);
                if progress >= 1.0 {
                    self.phase = Phase::Done;
                }
                gain
            }
            Phase::Done => 0.0,
        }
    }
}

fn same_phase(fixed: ADSRPhase, float: Phase) -> bool {
    matches!(
        (fixed, float),
        (ADSRPhase::Attack, Phase::Attack)
            | (ADSRPhase::Decay, Phase::Decay)
            | (ADSRPhase::Sustain, Phase::Sustain)
            | (ADSRPhase::Release, Phase::Release)
            | (ADSRPhase::Done, Phase::Done)
    )
}

fn follow(adsr: ADSREnvelope, sample_rate: u32, release_at: usize, ticks: usize) {
    let mut fixed = EnvelopeState::new();
    let mut float = FloatEnvelope::new(&adsr);
    for tick in 0..ticks {
        if tick == release_at {
            fixed.release();
            float.release();
        }
        let a = fixed.get_gain(&adsr, sample_rate) as f64 / UNIT as f64;
        let b = float.get_gain(sample_rate as f64);
        assert!((a - b).abs() <= 1.5e-6, "tick {}: {} against {}", tick, a, b);
        assert!(same_phase(fixed.phase, float.phase), "tick {}", tick);
    }
    assert!(fixed.is_done());
}

#[test]
fn the_envelope_follows_the_floating_point_formulas() {
    // Times chosen so that no phase ends exactly on a tick.
    follow(ADSREnvelope::new(10_007, 100_003, 800_000, 200_011), 44_100, 9_000, 20_000);
    follow(ADSREnvelope::new(1_003, 99_991, 300_000, 50_021), 48_000, 7_000, 12_000);
    follow(ADSREnvelope::new(300_017, 200_009, 700_000, 500_029), 22_050, 15_000, 30_000);
    follow(ADSREnvelope::new(0, 300_007, 100_000, 0), 44_100, 14_000, 14_010);
}

#[test]
fn an_early_release_follows_the_floating_point_formulas() {
    follow(ADSREnvelope::new(50_003, 100_003, 650_000, 30_011), 44_100, 1_000, 3_000);
    follow(ADSREnvelope::new(10_007, 100_003, 650_000, 30_011), 44_100, 2_000, 4_000);
}

fn float_voice_frame(pcm: &[f64], channels: usize, cursor: f64, gain: f64, out: usize) -> Vec<f64> {
    let frames = pcm.len() / channels;
    let i0 = (cursor as usize).min(frames - 1);
    let i1 = (i0 + 1).min(frames - 1);
    let t = cursor - i0 as f64;
    (0..out)
        .map(|oc| {
            let sc = oc.min(channels - 1);
            let s0 = pcm[i0 * channels + sc];
            let s1 = pcm[i1 * channels + sc];
            (s0 + t * (s1 - s0)) * gain
        })
        .collect()
}

#[test]
fn a_voice_follows_the_floating_point_formulas() {
    let fixed_pcm: Vec<i32> = (0..4_000).map(|i| ((i * 7_919) % 2_000_001) - 1_000_000).collect();
    let float_pcm: Vec<f64> = fixed_pcm.iter().map(|s| *s as f64 / 1e6).collect();
    let adsr = ADSREnvelope::new(5_003, 20_011, 600_000, 10_007);
    let speed = 1_370_000u32;
    let mut voice = Voice::new(Arc::new(fixed_pcm), 2, 3, speed, adsr);
    let mut envelope = FloatEnvelope::new(&adsr);
    let mut cursor = 3.0f64;
    let mut frames = 0;
    loop {
        let exhausted = cursor as usize >= 1_999;
        if exhausted && envelope.gate_open {
            envelope.release();
        }
        let rendered = voice.render(44_100, 3);
        if envelope.phase == Phase::Done {
            assert!(rendered.is_none());
            break;
        }
        let gain = envelope.get_gain(44_100.0);
        let expected = float_voice_frame(&float_pcm, 2, cursor, gain, 3);
        let got = rendered.expect("the voice still sounds");
        for (a, b) in got.iter().zip(expected.iter()) {
            assert!((*a as f64 / 1e6 - b).abs() <= 3e-6, "frame {}: {} against {}", frames, a, b);
        }
        let step = speed as f64 / 1e6;
        if cursor + step < 2_000.0 {
            cursor += step;
        } else if !exhausted {
            cursor = 1_999.0;
        }
        frames += 1;
        assert!(frames < 10_000);
    }
    assert!(frames > 1_400);
    assert!(voice.is_finished());
}

#[test]
fn the_mixer_follows_the_floating_point_sum() {
    let levels = [900_000, 400_000, -700_000, -900_000, 250_000];
    let mut batch: Vec<Voice> = levels
        .iter()
        .map(|l| {
            Voice::new(Arc::new(vec![*l; 64]), 1, 0, UNIT, ADSREnvelope::new(0, 0, 500_000, 0))
        })
        .collect();
    let mut mixer = Mixer::new();
    let mut out = vec![0; 8];
    mixer.process(&mut batch, &mut out, 2, 44_100, true);
    let mut first = 0.0f64;
    let mut later = 0.0f64;
    for l in levels {
        first = (first + l as f64 / 1e6).clamp(-1.0, 1.0);
        later = (later + 0.5 * l as f64 / 1e6).clamp(-1.0, 1.0);
    }
    assert!((out[0] as f64 / 1e6 - first).abs() <= 1e-6);
    assert!((out[1] as f64 / 1e6 - first).abs() <= 1e-6);
    for s in &out[2..] {
        assert!((*s as f64 / 1e6 - later).abs() <= 3e-6);
    }
}
