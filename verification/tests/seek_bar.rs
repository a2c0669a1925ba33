use perch::player::Player;
use perch::seek_bar::{fraction_at, time_of, timecode, Timeline, WHOLE};

#[test]
fn times_read_the_way_a_player_writes_them() {
    assert_eq!(timecode(0), "0:00");
    assert_eq!(timecode(59_900), "0:59", "floored, never rounded up");
    assert_eq!(timecode(60_000), "1:00");
    assert_eq!(timecode(3_599_000), "59:59");
    assert_eq!(timecode(3_600_000), "1:00:00");
    assert_eq!(timecode(21_497_800), "5:58:17");
    assert_eq!(timecode(-5_000), "0:00", "nothing before the start");
}

#[test]
fn a_pointer_lands_on_the_track_as_a_fraction_and_never_off_it() {
    assert_eq!(fraction_at(100, 400, 100), 0);
    assert_eq!(fraction_at(100, 400, 300), WHOLE / 2);
    assert_eq!(fraction_at(100, 400, 500), WHOLE);
    assert_eq!(fraction_at(100, 400, -40), 0, "off the left end");
    assert_eq!(fraction_at(100, 400, 900), WHOLE, "off the right end");
    assert_eq!(fraction_at(0, 0, 10), 0, "no width, no division");
}

#[test]
fn a_finished_recording_has_a_fixed_extent_and_a_live_one_grows() {
    let finished = Timeline {
        length: 21_497_000,
        growing: false,
    };
    assert_eq!(finished.extent(100_000, 120_000), 21_497_000);
    assert_eq!(
        finished.extent(21_600_000, 120_000),
        21_600_000,
        "a playhead past the listed length extends the bar"
    );

    let live = Timeline {
        length: 1_000_000,
        growing: true,
    };
    assert_eq!(
        live.extent(0, 120_000),
        1_120_000,
        "two minutes on from a listing of 1000 s"
    );

    let empty = Timeline {
        length: 0,
        growing: false,
    };
    assert_eq!(
        empty.extent(0, 0),
        1_000,
        "never zero, so nothing divides by it"
    );
}

#[test]
fn a_skip_stays_on_the_bar() {
    let timeline = Timeline { length: 100_000, growing: false };
    assert_eq!(timeline.skip(50_000, 0, 10_000), 60_000);
    assert_eq!(timeline.skip(5_000, 0, -10_000), 0);
    assert_eq!(timeline.skip(95_000, 0, 10_000), 100_000);
}

#[test]
fn a_scrub_seeks_when_it_lets_go() {
    let timeline = Some(Timeline { length: 100_000, growing: false });
    let mut player = Player::new(50);
    assert_eq!(player.end_scrub(&timeline, 0, 0), None);
    assert!(player.scrub_to(250_000));
    assert!(!player.scrub_to(250_000));
    assert!(player.controls_visible(), "the bar stays up while the thumb is held");
    assert_eq!(player.end_scrub(&timeline, 0, 0), Some(25_000));
    assert!(!player.controls_visible());
    player.scrub_to(WHOLE);
    assert_eq!(player.end_scrub(&None, 0, 0), None, "a live stream has nowhere to go");
    assert_eq!(time_of(WHOLE, 7), 7);
}

#[test]
fn unmuting_comes_back_to_the_level() {
    let mut player = Player::new(40);
    assert_eq!(player.nudge_volume(5), 45);
    assert_eq!(player.toggle_mute(), 0);
    assert!(player.is_muted());
    assert_eq!(player.toggle_mute(), 45);
    assert_eq!(player.nudge_volume(100), 100);
    assert_eq!(player.nudge_volume(-300), 0);
    assert_eq!(player.toggle_mute(), 100);
    assert_eq!(Player::new(0).toggle_mute(), 1);
}

#[test]
fn browsing_mutes_without_changing_the_level() {
    let mut player = Player::new(40);
    player.set_hovered(true);
    player.set_background(true);
    assert_eq!(player.volume, 0);
    assert!(!player.controls_visible());
    player.set_background(true);
    player.set_background(false);
    assert_eq!(player.volume, 40);
    assert_eq!(player.toggle_mute(), 0);
    assert_eq!(player.toggle_mute(), 40);
}

#[test]
fn the_control_bar_stays_while_its_menu_is_open() {
    let mut player = Player::new(40);
    assert!(player.set_hovered(true));
    assert!(!player.set_hovered(true));
    player.toggle_menu();
    assert!(!player.set_hovered(false), "the menu keeps the bar up");
    player.toggle_menu();
    assert!(!player.controls_visible());
    player.toggle_playback();
    assert!(player.paused);
    player.apply_volume(250);
    assert_eq!(player.volume, 100);
}
