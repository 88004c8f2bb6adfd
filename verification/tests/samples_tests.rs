use rabies::samples::{PlaybackMode, SamplesManager, MIN_DISTANCE};

fn with_marks(positions: &[u32]) -> SamplesManager {
    let mut m = SamplesManager::new();
    for (i, p) in positions.iter().enumerate() {
        m.mark_current_position("/tmp/a.wav", "a.wav", *p, i as u64);
    }
    m
}

#[test]
fn marks_get_consecutive_ids_from_one() {
    let mut m = SamplesManager::new();
    assert_eq!(m.peek_mark_id(), 1);
    m.mark_current_position("/x/kick.wav", "kick.wav", 250_000, 1_700_000_000_000);
    m.mark_current_position("/x/snare.wav", "snare.wav", 500_000, 1_700_000_000_001);
    let marks = m.get_marks();
    assert_eq!(marks.len(), 2);
    assert_eq!(marks[0].id, 1);
    assert_eq!(marks[0].sample_path, "/x/kick.wav");
    assert_eq!(marks[0].sample_name, "kick.wav");
    assert_eq!(marks[0].position, 250_000);
    assert_eq!(marks[0].timestamp, 1_700_000_000_000);
    assert_eq!(marks[1].id, 2);
    assert_eq!(marks[1].sample_name, "snare.wav");
    assert_eq!(m.peek_mark_id(), 3);
}

#[test]
fn marks_for_sample_are_filtered_in_order() {
    let mut m = SamplesManager::new();
    m.mark_current_position("p", "a", 10, 0);
    m.mark_current_position("p", "b", 20, 0);
    m.mark_current_position("p", "a", 30, 0);
    let a: Vec<u32> = m.get_marks_for_sample("a").iter().map(|x| x.position).collect();
    assert_eq!(a, vec![10, 30]);
    assert!(m.get_marks_for_sample("c").is_empty());
}

#[test]
fn clear_marks_empties_the_registry_but_keeps_the_counters() {
    let mut m = with_marks(&[1, 2, 3]);
    m.add_relation(1, vec![2, 3]);
    let region = m.create_region(1, 2);
    m.set_playback_mode(PlaybackMode::CustomRegion { region_id: region });
    m.clear_marks();
    assert!(m.get_marks().is_empty());
    assert!(m.get_regions().is_empty());
    assert!(m.get_end_markers_for(1).is_empty());
    assert_eq!(m.get_playback_mode(), PlaybackMode::PlayToEnd);
    assert_eq!(m.peek_mark_id(), 4);
    assert_eq!(m.peek_region_id(), 2);
}

#[test]
fn update_mark_position_is_held_at_the_end() {
    let mut m = with_marks(&[100, 200]);
    m.update_mark_position(1, 2_500_000);
    m.update_mark_position(0, 999);
    m.update_mark_position(7, 5);
    let p: Vec<u32> = m.get_marks().iter().map(|x| x.position).collect();
    assert_eq!(p, vec![999, 1_000_000]);
}

#[test]
fn find_mark_near_takes_the_first_within_the_threshold() {
    let mut m = SamplesManager::new();
    m.mark_current_position("p", "other", 500_000, 0);
    m.mark_current_position("p", "a", 510_000, 0);
    m.mark_current_position("p", "a", 500_000, 0);
    assert_eq!(m.find_mark_near("a", 500_000, 20_000), Some(1));
    assert_eq!(m.find_mark_near("a", 500_000, 10_000), Some(2));
    assert_eq!(m.find_mark_near("a", 520_000, 10_000), None);
    assert_eq!(m.find_mark_near("a", 500_000, 0), None);
    assert_eq!(m.find_mark_near("missing", 500_000, 1_000_000), None);
}

#[test]
fn relations_replace_and_look_up() {
    let mut m = SamplesManager::new();
    m.add_relation(1, vec![2, 3]);
    m.add_relation(4, vec![5]);
    m.add_relation(1, vec![9]);
    assert_eq!(m.get_end_markers_for(1), vec![9]);
    assert_eq!(m.get_end_markers_for(4), vec![5]);
    assert_eq!(m.get_end_markers_for(2), Vec::<usize>::new());
}

#[test]
fn create_region_names_the_region_after_its_marks() {
    let mut m = SamplesManager::new();
    let a = m.create_region(3, 12);
    let b = m.create_region(7, 7);
    assert_eq!((a, b), (1, 2));
    let regions = m.get_regions();
    assert_eq!(regions[0].name, "Region 3 \u{2192} 12");
    assert_eq!(regions[1].name, "Region 7 \u{2192} 7");
    assert_eq!((regions[0].id, regions[0].from, regions[0].to), (1, 3, 12));
    assert_eq!(m.get_region_by_id(2).map(|r| (r.from, r.to)), Some((7, 7)));
    assert!(m.get_region_by_id(3).is_none());
}

#[test]
fn rename_region_changes_only_the_name() {
    let mut m = SamplesManager::new();
    let a = m.create_region(1, 2);
    m.rename_region(a, String::from("verse"));
    m.rename_region(99, String::from("nothing"));
    let regions = m.get_regions();
    assert_eq!(regions.len(), 1);
    assert_eq!(regions[0].name, "verse");
    assert_eq!((regions[0].id, regions[0].from, regions[0].to), (1, 1, 2));
}

#[test]
fn delete_region_falls_back_to_play_to_end_only_for_the_active_one() {
    let mut m = SamplesManager::new();
    let a = m.create_region(1, 2);
    let b = m.create_region(2, 3);
    m.set_playback_mode(PlaybackMode::CustomRegion { region_id: b });
    m.delete_region(a);
    assert_eq!(m.get_playback_mode(), PlaybackMode::CustomRegion { region_id: b });
    assert_eq!(m.get_regions().len(), 1);
    m.delete_region(b);
    assert_eq!(m.get_playback_mode(), PlaybackMode::PlayToEnd);
    assert!(m.get_regions().is_empty());
}

#[test]
fn play_to_end_has_no_target() {
    let m = with_marks(&[500_000]);
    assert_eq!(m.get_playback_target(0, "a.wav"), None);
    assert!(!m.should_stop_at(900_000, "a.wav"));
}

#[test]
fn next_marker_is_the_nearest_one_far_enough_ahead() {
    let mut m = with_marks(&[800_000, 300_000, 500_000, 100_000]);
    m.mark_current_position("p", "b.wav", 200_000, 0);
    m.set_playback_mode(PlaybackMode::PlayToNextMarker);
    assert_eq!(m.get_playback_target(0, "a.wav"), Some(100_000));
    assert_eq!(m.get_playback_target(100_000, "a.wav"), Some(300_000));
    assert_eq!(m.get_playback_target(300_000 - MIN_DISTANCE, "a.wav"), Some(500_000));
    assert_eq!(m.get_playback_target(300_000 - MIN_DISTANCE - 1, "a.wav"), Some(300_000));
    assert_eq!(m.get_playback_target(800_000, "a.wav"), None);
    assert_eq!(m.get_playback_target(0, "b.wav"), Some(200_000));
    assert_eq!(m.get_playback_target(0, "c.wav"), None);
    assert_eq!(m.get_playback_target(u32::MAX, "a.wav"), None);
}

#[test]
fn region_target_is_the_position_of_its_end_mark() {
    let mut m = with_marks(&[100_000, 700_000, 400_000]);
    let r = m.create_region(1, 3);
    m.set_playback_mode(PlaybackMode::CustomRegion { region_id: r });
    assert_eq!(m.get_playback_target(0, "a.wav"), Some(400_000));
    assert_eq!(m.get_playback_target(900_000, "a.wav"), Some(400_000));
    assert_eq!(m.get_playback_target(0, "b.wav"), None);
    assert!(m.should_stop_at(400_000, "a.wav"));
    assert!(!m.should_stop_at(399_999, "a.wav"));
    m.set_playback_mode(PlaybackMode::CustomRegion { region_id: 42 });
    assert_eq!(m.get_playback_target(0, "a.wav"), None);
    let dangling = m.create_region(1, 77);
    m.set_playback_mode(PlaybackMode::CustomRegion { region_id: dangling });
    assert_eq!(m.get_playback_target(0, "a.wav"), None);
}

#[test]
fn should_stop_at_is_false_while_the_next_marker_lies_ahead() {
    let mut m = with_marks(&[500_000]);
    m.set_playback_mode(PlaybackMode::PlayToNextMarker);
    assert!(!m.should_stop_at(0, "a.wav"));
    assert!(!m.should_stop_at(499_999, "a.wav"));
    assert!(!m.should_stop_at(500_000, "a.wav"));
}

#[test]
fn delete_mark_removes_what_refers_to_it() {
    let mut m = with_marks(&[10, 20, 30, 40]);
    m.add_relation(1, vec![2, 3]);
    m.add_relation(2, vec![3, 4]);
    m.add_relation(3, vec![2, 2, 1]);
    let keep = m.create_region(1, 3);
    let from_gone = m.create_region(2, 4);
    let to_gone = m.create_region(4, 2);
    m.set_playback_mode(PlaybackMode::CustomRegion { region_id: from_gone });
    m.delete_mark(1);
    let ids: Vec<usize> = m.get_marks().iter().map(|x| x.id).collect();
    assert_eq!(ids, vec![1, 3, 4]);
    assert_eq!(m.get_end_markers_for(1), vec![3]);
    assert_eq!(m.get_end_markers_for(2), Vec::<usize>::new());
    assert_eq!(m.get_end_markers_for(3), vec![1]);
    let regions: Vec<usize> = m.get_regions().iter().map(|r| r.id).collect();
    assert_eq!(regions, vec![keep]);
    assert!(m.get_region_by_id(to_gone).is_none());
    assert_eq!(m.get_playback_mode(), PlaybackMode::CustomRegion { region_id: from_gone });
    m.delete_mark(17);
    assert_eq!(m.get_marks().len(), 3);
}

#[test]
fn get_mark_by_id_finds_the_mark() {
    let m = with_marks(&[10, 20, 30]);
    assert_eq!(m.get_mark_by_id(2).map(|x| x.position), Some(20));
    assert!(m.get_mark_by_id(0).is_none());
    assert!(m.get_mark_by_id(4).is_none());
}

#[test]
fn a_new_registry_is_empty_and_plays_to_the_end() {
    let m = SamplesManager::new();
    assert!(m.get_marks().is_empty());
    assert!(m.get_regions().is_empty());
    assert_eq!(m.get_playback_mode(), PlaybackMode::PlayToEnd);
    assert_eq!(m.playback_mode, PlaybackMode::PlayToEnd);
    assert_eq!(m.peek_region_id(), 1);
}

#[test]
fn numbers_are_written_in_decimal() {
    assert_eq!(rabies::samples::decimal_text(0), "0");
    assert_eq!(rabies::samples::decimal_text(7), "7");
    assert_eq!(rabies::samples::decimal_text(10), "10");
    assert_eq!(rabies::samples::decimal_text(1_234_567_890), "1234567890");
    assert_eq!(rabies::samples::decimal_text(usize::MAX), format!("{}", usize::MAX));
}

#[test]
fn a_region_name_matches_the_standard_formatter() {
    let mut m = SamplesManager::new();
    for (from, to) in [(0usize, 0usize), (9, 10), (usize::MAX, 123_456)] {
        m.create_region(from, to);
        let regions = m.get_regions();
        assert_eq!(regions.last().unwrap().name, format!("Region {} \u{2192} {}", from, to));
    }
}
