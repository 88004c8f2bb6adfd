use rabies::adsr::{ADSREnvelope, ADSRPhase, EnvelopeState};
use rabies::units::UNIT;

#[test]
fn zero_times_collapse_after_release() {
    let adsr = ADSREnvelope::new(0, 0, 600_000, 0);
    let mut env = EnvelopeState::new();
    env.trigger();
    assert_eq!(env.get_gain(&adsr, 44_100), UNIT);
    assert_eq!(env.phase, ADSRPhase::Decay);
    env.release();
    assert_eq!(env.get_gain(&adsr, 44_100), 0);
    assert!(env.is_done());
    assert_eq!(env.get_gain(&adsr, 44_100), 0);
}

#[test]
fn zero_times_collapse_in_four_calls_when_only_the_flag_is_cleared() {
    let adsr = ADSREnvelope::new(0, 0, 250_000, 0);
    let mut env = EnvelopeState::new();
    assert_eq!(env.get_gain(&adsr, 48_000), UNIT);
    env.gate_open = false;
    assert_eq!(env.get_gain(&adsr, 48_000), 250_000);
    assert_eq!(env.phase, ADSRPhase::Sustain);
    assert_eq!(env.get_gain(&adsr, 48_000), 250_000);
    assert_eq!(env.phase, ADSRPhase::Release);
    assert_eq!(env.get_gain(&adsr, 48_000), 0);
    assert_eq!(env.phase, ADSRPhase::Done);
}

#[test]
fn sustain_is_held_exactly() {
    let adsr = ADSREnvelope::new(0, 0, 437_219, 1_000_000);
    let mut env = EnvelopeState::new();
    env.get_gain(&adsr, 44_100);
    for _ in 0..1_000 {
        assert_eq!(env.get_gain(&adsr, 44_100), 437_219);
    }
    assert_eq!(env.phase, ADSRPhase::Sustain);
    assert!(env.gate_open);
}

#[test]
fn sustain_above_unity_counts_as_unity() {
    let adsr = ADSREnvelope::new(0, 0, 3_000_000, 0);
    let mut env = EnvelopeState::new();
    env.get_gain(&adsr, 44_100);
    assert_eq!(env.get_gain(&adsr, 44_100), UNIT);
    assert_eq!(adsr.sustain_level(), UNIT);
}

#[test]
fn release_on_done_changes_nothing() {
    let adsr = ADSREnvelope::new(0, 0, 500_000, 0);
    let mut env = EnvelopeState::new();
    env.get_gain(&adsr, 44_100);
    env.release();
    env.get_gain(&adsr, 44_100);
    assert!(env.is_done());
    let elapsed = env.elapsed;
    let gate_open = env.gate_open;
    env.release();
    assert!(env.is_done());
    assert_eq!(env.phase, ADSRPhase::Done);
    assert_eq!(env.elapsed, elapsed);
    assert_eq!(env.gate_open, gate_open);
    assert_eq!(env.get_gain(&adsr, 44_100), 0);
}

#[test]
fn release_from_any_live_phase_restarts_at_release() {
    let adsr = ADSREnvelope::default();
    let mut env = EnvelopeState::new();
    env.get_gain(&adsr, 44_100);
    env.release();
    assert_eq!(env.phase, ADSRPhase::Release);
    assert_eq!(env.elapsed, 0);
    assert!(!env.gate_open);
}

#[test]
fn trigger_resets_a_finished_envelope() {
    let adsr = ADSREnvelope::new(0, 0, 500_000, 0);
    let mut env = EnvelopeState::new();
    env.get_gain(&adsr, 44_100);
    env.release();
    env.get_gain(&adsr, 44_100);
    assert!(env.is_done());
    env.trigger();
    assert_eq!(env.phase, ADSRPhase::Attack);
    assert_eq!(env.elapsed, 0);
    assert!(env.gate_open);
}

#[test]
fn attack_ramps_linearly_and_hands_over_at_full_gain() {
    // 1 ms attack at 4 kHz: four ticks of 250 microseconds each.
    let adsr = ADSREnvelope::new(1_000, 0, 500_000, 0);
    let mut env = EnvelopeState::new();
    assert_eq!(env.get_gain(&adsr, 4_000), 250_000);
    assert_eq!(env.phase, ADSRPhase::Attack);
    assert_eq!(env.get_gain(&adsr, 4_000), 500_000);
    assert_eq!(env.get_gain(&adsr, 4_000), 750_000);
    assert_eq!(env.phase, ADSRPhase::Attack);
    assert_eq!(env.get_gain(&adsr, 4_000), UNIT);
    assert_eq!(env.phase, ADSRPhase::Decay);
    assert_eq!(env.elapsed, 0);
}

#[test]
fn attack_gain_rounds_down() {
    // 1 ms attack at 3 kHz: a third of the way per tick.
    let adsr = ADSREnvelope::new(1_000, 0, 500_000, 0);
    let mut env = EnvelopeState::new();
    assert_eq!(env.get_gain(&adsr, 3_000), 333_333);
    assert_eq!(env.get_gain(&adsr, 3_000), 666_666);
    assert_eq!(env.get_gain(&adsr, 3_000), UNIT);
    assert_eq!(env.phase, ADSRPhase::Decay);
}

#[test]
fn decay_ramps_from_full_gain_to_sustain() {
    // 1 ms decay at 4 kHz toward 0.6.
    let adsr = ADSREnvelope::new(0, 1_000, 600_000, 0);
    let mut env = EnvelopeState::new();
    assert_eq!(env.get_gain(&adsr, 4_000), UNIT);
    assert_eq!(env.phase, ADSRPhase::Decay);
    // The skipped attack leaves its tick in `elapsed`.
    assert_eq!(env.elapsed, 1);
    assert_eq!(env.get_gain(&adsr, 4_000), 800_000);
    assert_eq!(env.get_gain(&adsr, 4_000), 700_000);
    assert_eq!(env.get_gain(&adsr, 4_000), 600_000);
    assert_eq!(env.phase, ADSRPhase::Sustain);
    assert_eq!(env.elapsed, 0);
}

#[test]
fn release_ramps_from_sustain_to_silence() {
    let adsr = ADSREnvelope::new(0, 0, 800_000, 1_000);
    let mut env = EnvelopeState::new();
    env.get_gain(&adsr, 4_000);
    env.get_gain(&adsr, 4_000);
    env.release();
    assert_eq!(env.get_gain(&adsr, 4_000), 600_000);
    assert_eq!(env.get_gain(&adsr, 4_000), 400_000);
    assert_eq!(env.get_gain(&adsr, 4_000), 200_000);
    assert_eq!(env.phase, ADSRPhase::Release);
    assert_eq!(env.get_gain(&adsr, 4_000), 0);
    assert_eq!(env.phase, ADSRPhase::Done);
    assert_eq!(env.get_gain(&adsr, 4_000), 0);
}

#[test]
fn closing_the_flag_in_sustain_hands_over_to_release() {
    let adsr = ADSREnvelope::new(0, 0, 700_000, 2_000);
    let mut env = EnvelopeState::new();
    env.get_gain(&adsr, 1_000);
    env.get_gain(&adsr, 1_000);
    assert_eq!(env.phase, ADSRPhase::Sustain);
    env.gate_open = false;
    assert_eq!(env.get_gain(&adsr, 1_000), 700_000);
    assert_eq!(env.phase, ADSRPhase::Release);
    assert_eq!(env.elapsed, 0);
    assert_eq!(env.get_gain(&adsr, 1_000), 350_000);
    assert_eq!(env.get_gain(&adsr, 1_000), 0);
    assert!(env.is_done());
}

#[test]
fn a_sample_rate_of_zero_ends_each_timed_phase_at_once() {
    let adsr = ADSREnvelope::new(500_000, 500_000, 400_000, 500_000);
    let mut env = EnvelopeState::new();
    assert_eq!(env.get_gain(&adsr, 0), UNIT);
    assert_eq!(env.phase, ADSRPhase::Decay);
    assert_eq!(env.elapsed, 0);
    assert_eq!(env.get_gain(&adsr, 0), 400_000);
    assert_eq!(env.phase, ADSRPhase::Sustain);
}

#[test]
fn elapsed_stops_counting_at_the_top() {
    let adsr = ADSREnvelope::new(0, 0, 500_000, 0);
    let mut env = EnvelopeState { phase: ADSRPhase::Sustain, elapsed: u64::MAX, gate_open: true };
    assert_eq!(env.get_gain(&adsr, 44_100), 500_000);
    assert_eq!(env.elapsed, u64::MAX);
}

#[test]
fn presets_hold_their_parameters() {
    let d = ADSREnvelope::default();
    assert_eq!((d.attack, d.decay, d.sustain, d.release), (10_000, 100_000, 800_000, 200_000));
    let p = ADSREnvelope::percussive();
    assert_eq!((p.attack, p.decay, p.sustain, p.release), (1_000, 100_000, 300_000, 50_000));
    let p = ADSREnvelope::pad();
    assert_eq!((p.attack, p.decay, p.sustain, p.release), (300_000, 200_000, 700_000, 500_000));
    let p = ADSREnvelope::pluck();
    assert_eq!((p.attack, p.decay, p.sustain, p.release), (1_000, 300_000, 100_000, 100_000));
    let n = ADSREnvelope::new(1, 2, 3, 4);
    assert_eq!((n.attack, n.decay, n.sustain, n.release), (1, 2, 3, 4));
}

#[test]
fn default_state_is_a_struck_note() {
    let env = EnvelopeState::default();
    assert_eq!(env.phase, ADSRPhase::Attack);
    assert_eq!(env.elapsed, 0);
    assert!(env.gate_open);
    assert!(!env.is_done());
}

#[test]
fn gain_never_leaves_the_unit_range() {
    let adsr = ADSREnvelope::new(7_000, 13_000, 650_000, 9_000);
    let mut env = EnvelopeState::new();
    for tick in 0..5_000 {
        if tick == 3_000 {
            env.release();
        }
        let gain = env.get_gain(&adsr, 44_100);
        assert!(gain <= UNIT);
    }
    assert!(env.is_done());
}
