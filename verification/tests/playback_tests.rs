use rabies::playback::{
    fence_of, position_at, reached_target, sample_index_of, PlaybackStatus, Transport,
};
use rabies::samples::{PlaybackMode, SamplesManager};

fn ramp_pcm(n: usize) -> Vec<i32> {
    (0..n as i32).collect()
}

#[test]
fn playback_stops_at_the_marker_at_sample_500() {
    let mut registry = SamplesManager::new();
    registry.mark_current_position("/a/one.wav", "one.wav", 500_000, 0);
    registry.set_playback_mode(PlaybackMode::PlayToNextMarker);
    let pcm = ramp_pcm(1_000);
    let mut transport = Transport::new();
    transport.start(&registry, "one.wav");
    assert!(transport.playing);
    assert_eq!(transport.stop_target, Some(500_000));
    assert_eq!(transport.status, PlaybackStatus::Playing);

    let mut out = vec![0; 256];
    transport.fill(&pcm, 1, &mut out, 1);
    assert!(transport.playing);
    assert_eq!(transport.sample_index, 256);
    assert_eq!(out, (0..256).collect::<Vec<i32>>());

    transport.fill(&pcm, 1, &mut out, 1);
    assert!(!transport.playing);
    assert_eq!(transport.sample_index, 500);
    assert_eq!(transport.status, PlaybackStatus::StoppedAtMarker);
    assert_ne!(transport.status, PlaybackStatus::Finished);
    assert_eq!(transport.position, 500_000);
    assert_eq!(&out[..244], &(256..500).collect::<Vec<i32>>()[..]);
    assert!(out[244..].iter().all(|s| *s == 0));
}

#[test]
fn the_stop_target_is_frozen_for_the_run() {
    let mut registry = SamplesManager::new();
    registry.mark_current_position("/a/one.wav", "one.wav", 500_000, 0);
    registry.set_playback_mode(PlaybackMode::PlayToNextMarker);
    let pcm = ramp_pcm(1_000);
    let mut transport = Transport::new();
    transport.start(&registry, "one.wav");
    registry.update_mark_position(0, 100_000);
    registry.clear_marks();
    let mut out = vec![0; 2_000];
    transport.fill(&pcm, 1, &mut out, 1);
    assert_eq!(transport.sample_index, 500);
    assert_eq!(transport.status, PlaybackStatus::StoppedAtMarker);
}

#[test]
fn playback_without_a_target_runs_to_the_last_frame() {
    let registry = SamplesManager::new();
    let pcm = ramp_pcm(10);
    let mut transport = Transport::new();
    transport.start(&registry, "one.wav");
    assert_eq!(transport.stop_target, None);
    let mut out = vec![-1; 16];
    transport.fill(&pcm, 1, &mut out, 1);
    assert_eq!(out, vec![0, 1, 2, 3, 4, 5, 6, 7, 8, 0, 0, 0, 0, 0, 0, 0]);
    assert!(!transport.playing);
    assert_eq!(transport.status, PlaybackStatus::Finished);
    assert_eq!(transport.sample_index, 9);
    assert_eq!(transport.position, 900_000);
}

#[test]
fn a_full_buffer_leaves_the_run_under_way() {
    let registry = SamplesManager::new();
    let pcm = ramp_pcm(10);
    let mut transport = Transport::new();
    transport.start(&registry, "x");
    let mut out = vec![-1; 9];
    transport.fill(&pcm, 1, &mut out, 1);
    assert!(transport.playing);
    assert_eq!(transport.status, PlaybackStatus::Playing);
    assert_eq!(transport.sample_index, 9);
    transport.fill(&pcm, 1, &mut out, 1);
    assert!(!transport.playing);
    assert_eq!(transport.status, PlaybackStatus::Finished);
    assert_eq!(out, vec![0; 9]);
}

#[test]
fn at_rest_the_buffer_is_silenced_and_nothing_moves() {
    let pcm = ramp_pcm(10);
    let mut transport = Transport::new();
    transport.sample_index = 3;
    let mut out = vec![9; 5];
    transport.fill(&pcm, 1, &mut out, 1);
    assert_eq!(out, vec![0; 5]);
    assert_eq!(transport.sample_index, 3);
    assert_eq!(transport.status, PlaybackStatus::Idle);
}

#[test]
fn stereo_frames_are_copied_channel_by_channel() {
    let registry = SamplesManager::new();
    let pcm = vec![10, -10, 20, -20, 30, -30, 40, -40];
    let mut transport = Transport::new();
    transport.start(&registry, "x");
    let mut out = vec![7; 5];
    transport.fill(&pcm, 2, &mut out, 2);
    assert_eq!(out, vec![10, -10, 20, -20, 0]);
    assert!(transport.playing);
    assert_eq!(transport.sample_index, 4);
    assert_eq!(transport.position, 500_000);
}

#[test]
fn an_index_off_a_frame_boundary_interpolates() {
    let registry = SamplesManager::new();
    let pcm = vec![0, 0, 100, 1_000, 200, 2_000, 300, 3_000];
    let mut transport = Transport::new();
    transport.sample_index = 1;
    transport.start(&registry, "x");
    let mut out = vec![0; 4];
    transport.fill(&pcm, 2, &mut out, 2);
    // Half a frame past frame 0 and frame 1.
    assert_eq!(out, vec![50, 500, 150, 1_500]);
    assert_eq!(transport.sample_index, 5);
}

#[test]
fn a_run_without_channels_or_samples_finishes_at_once() {
    let registry = SamplesManager::new();
    let mut transport = Transport::new();
    transport.start(&registry, "x");
    let mut out = vec![3; 4];
    transport.fill(&vec![1, 2, 3], 0, &mut out, 2);
    assert_eq!(out, vec![0; 4]);
    assert!(!transport.playing);
    assert_eq!(transport.status, PlaybackStatus::Finished);

    let mut transport = Transport::new();
    transport.start(&registry, "x");
    transport.fill(&Vec::new(), 2, &mut out, 2);
    assert!(!transport.playing);
    assert_eq!(transport.status, PlaybackStatus::Finished);
    assert_eq!(transport.position, 0);
}

#[test]
fn a_target_at_or_behind_the_start_is_dropped() {
    let mut registry = SamplesManager::new();
    registry.mark_current_position("p", "one.wav", 200_000, 0);
    registry.mark_current_position("p", "one.wav", 400_000, 0);
    let region = registry.create_region(2, 1);
    registry.set_playback_mode(PlaybackMode::CustomRegion { region_id: region });
    let mut transport = Transport::new();
    transport.position = 400_000;
    transport.start(&registry, "one.wav");
    assert_eq!(transport.stop_target, None);
    transport.position = 100_000;
    transport.start(&registry, "one.wav");
    assert_eq!(transport.stop_target, Some(200_000));
}

#[test]
fn toggle_pauses_a_run_and_keeps_the_position() {
    let registry = SamplesManager::new();
    let mut transport = Transport::new();
    transport.start(&registry, "x");
    transport.sample_index = 40;
    transport.position = 400_000;
    assert!(!transport.toggle(&registry, "x", 100));
    assert!(!transport.playing);
    assert_eq!(transport.status, PlaybackStatus::Paused);
    assert_eq!(transport.sample_index, 40);
    assert_eq!(transport.position, 400_000);
    assert!(transport.toggle(&registry, "x", 100));
    assert!(transport.playing);
    assert_eq!(transport.sample_index, 40);
}

#[test]
fn toggle_near_the_end_rewinds() {
    let registry = SamplesManager::new();
    let mut transport = Transport::new();
    transport.position = 999_000;
    transport.sample_index = 999;
    assert!(transport.toggle(&registry, "x", 1_000));
    assert_eq!(transport.position, 0);
    assert_eq!(transport.sample_index, 0);
    let mut transport = Transport::new();
    transport.position = 998_999;
    transport.sample_index = 998;
    assert!(transport.toggle(&registry, "x", 1_000));
    assert_eq!(transport.position, 998_999);
    assert_eq!(transport.sample_index, 998);
}

#[test]
fn toggle_in_a_region_starts_from_its_first_mark() {
    let mut registry = SamplesManager::new();
    registry.mark_current_position("p", "one.wav", 250_000, 0);
    registry.mark_current_position("p", "one.wav", 750_000, 0);
    let region = registry.create_region(1, 2);
    registry.set_playback_mode(PlaybackMode::CustomRegion { region_id: region });
    let mut transport = Transport::new();
    transport.position = 999_500;
    assert!(transport.toggle(&registry, "one.wav", 2_000));
    assert_eq!(transport.position, 250_000);
    assert_eq!(transport.sample_index, 500);
    assert_eq!(transport.stop_target, Some(750_000));
    assert!(transport.playing);
}

#[test]
fn seek_holds_the_position_at_the_end() {
    let registry = SamplesManager::new();
    let mut transport = Transport::new();
    assert!(!transport.seek(2_000_000, &registry, "x", 1_000));
    assert_eq!(transport.position, 1_000_000);
    assert_eq!(transport.sample_index, 1_000);
    assert_eq!(transport.status, PlaybackStatus::Seeked);
    assert!(!transport.seek(333_333, &registry, "x", 1_000));
    assert_eq!(transport.position, 333_333);
    assert_eq!(transport.sample_index, 333);
    assert!(!transport.playing);
}

#[test]
fn seek_during_a_run_restarts_with_a_new_target() {
    let mut registry = SamplesManager::new();
    registry.mark_current_position("p", "one.wav", 300_000, 0);
    registry.mark_current_position("p", "one.wav", 800_000, 0);
    registry.set_playback_mode(PlaybackMode::PlayToNextMarker);
    let mut transport = Transport::new();
    transport.start(&registry, "one.wav");
    assert_eq!(transport.stop_target, Some(300_000));
    assert!(transport.seek(500_000, &registry, "one.wav", 1_000));
    assert!(transport.playing);
    assert_eq!(transport.stop_target, Some(800_000));
    assert_eq!(transport.sample_index, 500);
    assert_eq!(transport.status, PlaybackStatus::Playing);
}

#[test]
fn stop_and_fail_end_the_run() {
    let registry = SamplesManager::new();
    let mut transport = Transport::new();
    transport.start(&registry, "x");
    transport.stop();
    assert!(!transport.playing);
    assert_eq!(transport.status, PlaybackStatus::Playing);
    transport.start(&registry, "x");
    transport.fail();
    assert!(!transport.playing);
    assert_eq!(transport.status, PlaybackStatus::DeviceError);
}

#[test]
fn conversions_between_positions_and_indices_round_down() {
    assert_eq!(sample_index_of(500_000, 1_000), 500);
    assert_eq!(sample_index_of(1, 999_999), 0);
    assert_eq!(sample_index_of(999_999, 3), 2);
    assert_eq!(sample_index_of(1_000_000, 3), 3);
    assert_eq!(sample_index_of(u32::MAX, 3), 3);
    assert_eq!(position_at(500, 1_000, 7), 500_000);
    assert_eq!(position_at(1, 3, 7), 333_333);
    assert_eq!(position_at(5, 3, 7), 1_000_000);
    assert_eq!(position_at(5, 0, 7), 7);
    assert_eq!(position_at(u64::MAX, 1, 7), 1_000_000);
}

#[test]
fn the_fence_is_the_target_or_the_last_frame() {
    assert_eq!(fence_of(None, 1_000), 999);
    assert_eq!(fence_of(Some(500_000), 1_000), 500);
    assert_eq!(fence_of(Some(999_999), 1_000), 999);
    assert_eq!(fence_of(Some(u32::MAX), 1_000), 999);
    assert_eq!(fence_of(Some(0), 1_000), 0);
    assert_eq!(fence_of(None, 0), 0);
    assert_eq!(fence_of(Some(500_000), 0), 0);
    assert!(reached_target(Some(500_000), 1_000, 500));
    assert!(!reached_target(Some(500_000), 1_000, 499));
    assert!(!reached_target(None, 1_000, 999));
}

#[test]
fn each_status_has_its_words() {
    assert_eq!(PlaybackStatus::StoppedAtMarker.label(), "Stopped at marker");
    assert_eq!(PlaybackStatus::Finished.label(), "Playback finished");
    assert_eq!(PlaybackStatus::DeviceError.label(), "Playback error");
    assert_eq!(PlaybackStatus::Idle.label(), "Ready");
    assert_eq!(PlaybackStatus::Playing.label(), "Playing");
    assert_eq!(PlaybackStatus::Paused.label(), "Paused");
    assert_eq!(PlaybackStatus::Seeked.label(), "Seeked");
}

#[test]
fn status_codes_round_trip() {
    let all = [
        PlaybackStatus::Idle,
        PlaybackStatus::Playing,
        PlaybackStatus::Paused,
        PlaybackStatus::Seeked,
        PlaybackStatus::StoppedAtMarker,
        PlaybackStatus::Finished,
        PlaybackStatus::DeviceError,
    ];
    for (i, status) in all.iter().enumerate() {
        assert_eq!(status.code() as usize, i);
        assert_eq!(PlaybackStatus::from_code(status.code()), *status);
    }
    assert_eq!(PlaybackStatus::from_code(7), PlaybackStatus::Idle);
    assert_eq!(PlaybackStatus::from_code(255), PlaybackStatus::Idle);
}

#[test]
fn a_mono_source_on_a_stereo_device_plays_one_frame_per_output_frame() {
    let registry = SamplesManager::new();
    let pcm = ramp_pcm(100);
    let mut transport = Transport::new();
    transport.start(&registry, "x");
    let mut out = vec![-1; 9];
    transport.fill(&pcm, 1, &mut out, 2);
    // Four stereo frames fit; the ninth sample is no whole frame.
    assert_eq!(out, vec![0, 0, 1, 1, 2, 2, 3, 3, 0]);
    assert_eq!(transport.sample_index, 4);
    assert!(transport.playing);
    transport.fill(&pcm, 1, &mut out, 2);
    assert_eq!(out, vec![4, 4, 5, 5, 6, 6, 7, 7, 0]);
    assert_eq!(transport.sample_index, 8);
    assert_eq!(transport.position, 80_000);
}

#[test]
fn a_stereo_source_on_a_mono_device_plays_its_first_channel() {
    let registry = SamplesManager::new();
    let pcm = vec![10, -10, 20, -20, 30, -30, 40, -40];
    let mut transport = Transport::new();
    transport.start(&registry, "x");
    let mut out = vec![7; 2];
    transport.fill(&pcm, 2, &mut out, 1);
    assert_eq!(out, vec![10, 20]);
    assert_eq!(transport.sample_index, 4);
    assert!(transport.playing);
}

#[test]
fn extra_device_channels_repeat_the_last_source_channel() {
    let registry = SamplesManager::new();
    let pcm = vec![10, -10, 20, -20, 30, -30];
    let mut transport = Transport::new();
    transport.start(&registry, "x");
    let mut out = vec![7; 8];
    transport.fill(&pcm, 2, &mut out, 4);
    assert_eq!(out, vec![10, -10, -10, -10, 20, -20, -20, -20]);
    assert_eq!(transport.sample_index, 4);
    assert!(transport.playing);
}

#[test]
fn the_marker_halts_a_mono_source_on_a_stereo_device_at_sample_500() {
    let mut registry = SamplesManager::new();
    registry.mark_current_position("/a/one.wav", "one.wav", 500_000, 0);
    registry.set_playback_mode(PlaybackMode::PlayToNextMarker);
    let pcm = ramp_pcm(1_000);
    let mut transport = Transport::new();
    transport.start(&registry, "one.wav");
    let mut out = vec![0; 800];
    transport.fill(&pcm, 1, &mut out, 2);
    assert!(transport.playing);
    assert_eq!(transport.sample_index, 400);
    transport.fill(&pcm, 1, &mut out, 2);
    assert!(!transport.playing);
    assert_eq!(transport.sample_index, 500);
    assert_eq!(transport.status, PlaybackStatus::StoppedAtMarker);
    assert_eq!(&out[..4], &[400, 400, 401, 401]);
    assert_eq!(&out[198..202], &[499, 499, 0, 0]);
}

#[test]
fn a_device_without_channels_plays_nothing_and_halts_nothing() {
    let registry = SamplesManager::new();
    let pcm = ramp_pcm(10);
    let mut transport = Transport::new();
    transport.start(&registry, "x");
    let mut out = vec![3; 4];
    transport.fill(&pcm, 1, &mut out, 0);
    assert_eq!(out, vec![0; 4]);
    assert!(transport.playing);
    assert_eq!(transport.sample_index, 0);
}
