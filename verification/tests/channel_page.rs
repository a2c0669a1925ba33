use perch::channel_page::{
    card_line, corner, describe, describe_from, elapsed_millis, in_progress, length, now_label,
    when_on,
};
use perch::helix::{Video, VideoKind};
use perch::moment::{local_day, parse, Day, Moment};

fn video(created_at: &str, length_secs: u64, thumbnail: &str) -> Video {
    Video {
        id: "1".into(),
        stream_id: None,
        user_id: "2".into(),
        user_login: "someone".into(),
        user_name: "Someone".into(),
        title: String::new(),
        created_at: created_at.into(),
        length_secs,
        thumbnail_url: thumbnail.into(),
        view_count: 0,
        kind: VideoKind::Archive,
    }
}

fn at(rfc3339: &str) -> Moment {
    parse(rfc3339).unwrap()
}

#[test]
fn lengths_read_like_uptimes() {
    assert_eq!(length(21497), "5h 58m");
    assert_eq!(length(3600), "1h 0m");
    assert_eq!(length(3480), "58m");
    assert_eq!(length(45), "45s");
    assert_eq!(length(0), "0s");
}

#[test]
fn a_broadcast_still_going_is_told_from_one_that_finished() {
    let now = at("2026-09-08T20:00:00Z");
    let placeholder = video(
        "2026-09-08T14:59:16Z",
        100,
        "https://vod-secure.twitch.tv/_404/404_processing_%{width}x%{height}.png",
    );
    assert!(in_progress(&placeholder, &now));

    // Listed as ending five minutes ago: still growing when listed.
    let fresh = video(
        "2026-09-08T13:00:00Z",
        6 * 3600 + 55 * 60,
        "https://cdn/x.jpg",
    );
    assert!(in_progress(&fresh, &now));

    // Listed as ending an hour ago: finished.
    let done = video("2026-09-08T13:00:00Z", 6 * 3600, "https://cdn/x.jpg");
    assert!(!in_progress(&done, &now));

    assert!(!in_progress(
        &video("not a date", 100, "https://cdn/x.jpg"),
        &now
    ));
}

#[test]
fn a_broadcast_still_going_is_as_long_as_the_time_since_it_started() {
    let now = at("2026-09-08T20:00:00Z");
    let going = video("2026-09-08T14:00:00Z", 100, "https://cdn/x.jpg");
    assert_eq!(elapsed_millis(&going, &now), Some(6 * 3600 * 1000));
    assert_eq!(elapsed_millis(&video("nope", 1, ""), &now), None);
}

#[test]
fn when_counts_days_the_way_people_do() {
    // Midday, so a local-time calendar cannot land on a different day
    // than UTC's anywhere a test runs.
    let now = at("2026-09-08T12:00:00Z");
    assert_eq!(perch::channel_page::when("2026-09-08T10:00:00Z", &now).as_deref(), Some("today"));
    assert_eq!(
        perch::channel_page::when("2026-09-07T12:00:00Z", &now).as_deref(),
        Some("yesterday")
    );
    assert_eq!(
        perch::channel_page::when("2026-09-05T12:00:00Z", &now).as_deref(),
        Some("3 days ago")
    );
    assert_eq!(
        perch::channel_page::when("2026-08-30T12:00:00Z", &now).as_deref(),
        Some("last week")
    );
    assert_eq!(
        perch::channel_page::when("2026-08-20T12:00:00Z", &now).as_deref(),
        Some("2 weeks ago")
    );
    assert_eq!(perch::channel_page::when("2026-07-01T12:00:00Z", &now).as_deref(), Some("1 Jul"));
    assert_eq!(
        perch::channel_page::when("2025-12-25T12:00:00Z", &now).as_deref(),
        Some("25 Dec 2025")
    );
    assert_eq!(
        perch::channel_page::when("2026-09-09T12:00:00Z", &now).as_deref(),
        Some("today"),
        "the future is now"
    );
    assert_eq!(perch::channel_page::when("garbage", &now), None);
}

#[test]
fn a_recording_is_described_by_when_and_how_long() {
    let now = at("2026-09-08T12:00:00Z");
    let done = video("2026-09-07T12:00:00Z", 21497, "https://cdn/x.jpg");
    assert_eq!(describe(&done, &now), "yesterday · 5h 58m");

    // Listed an hour ago at a minute long, but still wearing Twitch's
    // placeholder picture: still going, and two hours in by now.
    let going = video(
        "2026-09-08T10:00:00Z",
        60,
        "https://vod-secure.twitch.tv/_404/404_processing_%{width}x%{height}.png",
    );
    assert_eq!(describe(&going, &now), "streaming now · 2h 0m so far");
    assert_eq!(corner(&going, &now), "2h 0m so far");
    assert_eq!(corner(&done, &now), "5h 58m");
}

#[test]
fn a_moment_has_its_day_on_the_calendar() {
    let day = local_day(at("2024-02-29T12:00:00Z"));
    assert_eq!((day.year, day.month, day.day), (2024, 2, 29));
    assert_eq!(day.number, 738_945);
}

#[test]
fn days_are_told_apart_by_their_number() {
    let today = Day { number: 100, year: 2026, month: 1, day: 8 };
    let before = Day { number: 94, year: 2026, month: 1, day: 2 };
    assert_eq!(when_on(&before, &today), "6 days ago");
    assert_eq!(when_on(&today, &before), "today");
}

#[test]
fn what_has_no_day_is_described_by_its_length() {
    let now = at("2026-09-08T12:00:00Z");
    let done = video("no date", 45, "https://cdn/x.jpg");
    assert_eq!(describe_from(&done, &now, &None), "45s");
    assert_eq!(describe(&done, &now), "45s");
    assert_eq!(card_line(&done, &Some("today".into())), "today · 0 views");
    assert_eq!(now_label(true), "watch live");
    assert_eq!(now_label(false), "open chat");
}

#[test]
fn a_broadcast_grows_while_it_is_going_and_stays_ended_when_it_has() {
    let then = at("2026-09-08T12:00:00Z");
    let later = at("2026-09-08T13:00:00Z");
    let going = video("2026-09-08T10:00:00Z", 60, "404_processing");
    assert!(elapsed_millis(&going, &then) < elapsed_millis(&going, &later));
    let done = video("2026-09-08T10:00:00Z", 60, "x");
    assert!(!in_progress(&done, &then));
    assert!(!in_progress(&done, &later));
}

#[test]
fn dates_are_those_of_the_gregorian_calendar() {
    for (moment, date, number) in [
        ("1970-01-01T12:00:00Z", (1970, 1, 1), 719_163),
        ("2000-02-29T12:00:00Z", (2000, 2, 29), 730_179),
        ("1900-03-01T12:00:00Z", (1900, 3, 1), 693_655),
        ("2024-12-31T12:00:00Z", (2024, 12, 31), 739_251),
    ] {
        let day = local_day(at(moment));
        assert_eq!((day.year, day.month, day.day), date);
        assert_eq!(day.number, number);
    }
}
