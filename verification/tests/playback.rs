use resonance::playback::{
    after_track_end, clamp_current, position_to_save, ScrobbleState, next_queue_index, TrackEnd, previous_queue_index, remove_from_queue, restore_current,
    shuffle_choices, RepeatMode, QUEUE_SNAPSHOT_VERSION,
};

/// The shuffle pick for a random number in `[0, 1)`, as the player draws it.
fn pick(random: f64, len: usize, index: usize, shuffle: bool, repeat: RepeatMode) -> usize {
    let choices = shuffle_choices(len, index, shuffle, repeat);
    if choices == 0 {
        0
    } else {
        ((random * choices as f64).floor() as usize).min(choices - 1)
    }
}

fn next(len: usize, index: usize, shuffle: bool, repeat: RepeatMode, random: f64) -> Option<usize> {
    next_queue_index(len, index, shuffle, repeat, pick(random, len, index, shuffle, repeat))
}

#[test]
fn queue_navigation_stops_or_wraps_at_the_boundary() {
    assert_eq!(next(3, 2, false, RepeatMode::Off, 0.5), None);
    assert_eq!(next(3, 2, false, RepeatMode::All, 0.5), Some(0));
}

#[test]
fn non_repeating_shuffle_never_wraps_backwards() {
    assert_eq!(next(5, 2, true, RepeatMode::Off, 0.0), Some(3));
    assert_eq!(next(5, 2, true, RepeatMode::Off, 0.99), Some(4));
    assert_eq!(next(5, 4, true, RepeatMode::Off, 0.5), None);
}

#[test]
fn plain_queues_step_forward() {
    assert_eq!(next(3, 0, false, RepeatMode::Off, 0.5), Some(1));
    assert_eq!(next(3, 1, false, RepeatMode::One, 0.5), Some(2));
    assert_eq!(next(3, 2, false, RepeatMode::One, 0.5), None);
    assert_eq!(next(0, 0, true, RepeatMode::All, 0.5), None);
    assert_eq!(next(1, 0, true, RepeatMode::All, 0.5), Some(0));
}

#[test]
fn repeating_shuffle_never_replays_the_current_track() {
    assert_eq!(shuffle_choices(4, 3, true, RepeatMode::All), 3);
    for draw in 0..3 {
        let chosen = next_queue_index(4, 3, true, RepeatMode::All, draw).unwrap();
        assert_ne!(chosen, 3);
        assert!(chosen < 4);
    }
    assert_eq!(next_queue_index(4, 3, true, RepeatMode::All, 0), Some(0));
    assert_eq!(next_queue_index(4, 1, true, RepeatMode::All, 2), Some(0));
    assert_eq!(shuffle_choices(5, 2, true, RepeatMode::Off), 2);
    assert_eq!(shuffle_choices(5, 2, false, RepeatMode::All), 0);
}

#[test]
fn previous_moves_back_or_wraps_when_repeating() {
    assert_eq!(previous_queue_index(3, 2, RepeatMode::Off), Some(1));
    assert_eq!(previous_queue_index(3, 0, RepeatMode::Off), None);
    assert_eq!(previous_queue_index(3, 0, RepeatMode::All), Some(2));
    assert_eq!(previous_queue_index(0, 0, RepeatMode::All), None);
}

#[test]
fn the_repeat_button_cycles_through_three_modes() {
    assert_eq!(RepeatMode::Off.next(), RepeatMode::One);
    assert_eq!(RepeatMode::One.next(), RepeatMode::All);
    assert_eq!(RepeatMode::All.next(), RepeatMode::Off);
    assert_eq!(RepeatMode::default(), RepeatMode::Off);
}

#[test]
fn removing_a_track_keeps_the_current_one_playing() {
    let mut queue = vec!["a", "b", "c", "d"];
    let (current, playing) = remove_from_queue(&mut queue, 0, 2, true);
    assert_eq!(queue, vec!["b", "c", "d"]);
    assert_eq!(queue[current], "c");
    assert!(playing);

    let mut queue = vec!["a", "b", "c"];
    let (current, _) = remove_from_queue(&mut queue, 2, 2, true);
    assert_eq!(queue, vec!["a", "b"]);
    assert_eq!(current, 1);

    let mut queue = vec!["a", "b", "c"];
    assert_eq!(remove_from_queue(&mut queue, 1, 1, false), (1, false));
    assert_eq!(queue, vec!["a", "c"]);

    let mut queue = vec!["a"];
    assert_eq!(remove_from_queue(&mut queue, 0, 0, true), (0, false));
    assert!(queue.is_empty());

    let mut queue = vec!["a", "b"];
    assert_eq!(remove_from_queue(&mut queue, 7, 1, true), (1, true));
    assert_eq!(queue, vec!["a", "b"]);
}

#[test]
fn readable_snapshot_versions_restore_the_position() {
    assert_eq!(restore_current(1, 0, 0), Some(0));
    assert_eq!(restore_current(QUEUE_SNAPSHOT_VERSION, 5, 3), Some(2));
    assert_eq!(restore_current(2, 1, 3), Some(1));
}

#[test]
fn unknown_snapshot_versions_are_refused() {
    assert_eq!(restore_current(0, 0, 0), None);
    assert_eq!(restore_current(3, 1, 4), None);
}

#[test]
fn saved_positions_stay_inside_the_queue() {
    assert_eq!(clamp_current(9, 4), 3);
    assert_eq!(clamp_current(2, 4), 2);
    assert_eq!(clamp_current(2, 0), 0);
}

#[test]
fn a_finished_track_restarts_advances_or_stops() {
    assert_eq!(after_track_end(3, 1, false, RepeatMode::One, 0), TrackEnd::Restart);
    assert_eq!(after_track_end(0, 0, false, RepeatMode::Off, 0), TrackEnd::Stop);
    assert_eq!(after_track_end(3, 1, false, RepeatMode::Off, 0), TrackEnd::Play(2));
    assert_eq!(after_track_end(3, 2, false, RepeatMode::Off, 0), TrackEnd::Stop);
    assert_eq!(after_track_end(3, 2, false, RepeatMode::All, 0), TrackEnd::Play(0));
    assert_eq!(after_track_end(5, 2, true, RepeatMode::Off, 1), TrackEnd::Play(4));
}

#[test]
fn each_listen_is_reported_once() {
    let mut state = ScrobbleState::new();
    assert!(!state.playing(true, true, false));
    assert!(state.playing(true, true, true));
    assert!(!state.playing(true, true, true));
    assert!(!state.progressed(true, false, true, true));
    assert!(state.progressed(true, true, true, true));
    assert!(!state.progressed(true, true, true, true));
    assert!(!state.ended(true, true, true));
    assert!(state.playing(true, true, true));
    assert!(!state.progressed(false, true, true, true));
    assert!(state.ended(true, true, true));
    assert!(!position_to_save(12, 10));
    assert!(position_to_save(15, 14));
}
