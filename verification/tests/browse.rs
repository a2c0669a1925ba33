use chrono::Utc;
use perch::browse::{
    card_width, empty_state, format_viewers, load_more_row, uptime, uptime_at, watching_at, Body,
    Discovery, Empty, Listing, More, SearchResults, SignIn, Tab, CARD_MAX, CARD_MIN, PAGE_PAD,
};
use perch::helix::{Category, LiveStream};
use perch::layout::PIXEL;
use perch::moment::parse;

const GAP_SECTION: f64 = 18.0;

fn stream(login: &str, viewers: u64) -> LiveStream {
    LiveStream {
        user_login: login.into(),
        user_id: format!("id-{login}"),
        display_name: login.to_uppercase(),
        title: "a title".into(),
        game_name: "a game".into(),
        viewer_count: viewers,
        thumbnail_url: String::new(),
        started_at: "2026-09-08T10:00:00Z".into(),
    }
}

#[test]
fn a_listing_appends_a_page_but_replaces_a_first_one() {
    let mut listing: Listing<u32> = Listing::default();
    assert!(listing.is_empty());
    assert!(listing.next.is_none(), "an empty list offers no Load more");

    listing.absorb(vec![1, 2, 3], Some("page2".into()), false);
    assert_eq!(listing.items, vec![1, 2, 3]);
    assert_eq!(listing.next.as_deref(), Some("page2"));

    listing.absorb(vec![4, 5], Some("page3".into()), true);
    assert_eq!(listing.items, vec![1, 2, 3, 4, 5], "a page did not append");

    // A refresh starts again rather than continuing.
    listing.absorb(vec![9], None, false);
    assert_eq!(listing.items, vec![9], "a fresh page did not replace");
    assert!(
        listing.next.is_none(),
        "the end of the list still offered more"
    );
}

#[test]
fn the_last_page_clears_the_cursor() {
    let mut listing: Listing<u32> = Listing::default();
    listing.absorb(vec![1], Some("more".into()), false);
    assert!(listing.next.is_some());

    listing.absorb(vec![2], None, true);
    assert_eq!(listing.items, vec![1, 2]);
    assert!(listing.next.is_none());

    listing.clear();
    assert!(listing.is_empty());
    assert!(listing.next.is_none(), "clear left a cursor behind");
}

/// A card's width in pixels, for a page of so many.
fn card(width: f64) -> f64 {
    let unit = PIXEL as f64;
    let each = card_width(
        (width * unit) as u32,
        CARD_MIN * PIXEL,
        CARD_MAX * PIXEL,
        (GAP_SECTION * unit) as u32,
    );
    each as f64 / unit
}

/// How many cards a row of `width` ends up holding, worked back out of the
/// width each one got. What the grid is actually judged on.
fn columns(width: f64) -> usize {
    let each = card(width);
    let usable = width - 2.0 * PAGE_PAD as f64;
    (((usable + GAP_SECTION) / (each + GAP_SECTION)).round() as usize).max(1)
}

#[test]
fn cards_take_the_width_they_are_given() {
    for width in [900.0, 1280.0, 1600.0, 2560.0, 3440.0] {
        let each = card(width);
        let columns = columns(width) as f64;
        let used = columns * each + (columns - 1.0) * GAP_SECTION;
        let slack = (width - 2.0 * PAGE_PAD as f64) - used;
        assert!(
            slack.abs() < 1.0,
            "{width}px left {slack:.1}px of the row unused"
        );
    }
}

#[test]
fn card_width_stays_between_its_bounds() {
    for width in [320.0, 600.0, 1600.0, 5120.0] {
        let each = card(width);
        assert!(
            (CARD_MIN as f64..=CARD_MAX as f64).contains(&each),
            "{width}px gave a {each}px card"
        );
    }
}

#[test]
fn columns_never_decrease_as_the_window_grows() {
    let mut last = 0;
    let mut width = 400.0;
    while width < 4000.0 {
        let columns = columns(width);
        assert!(
            columns >= last,
            "{width}px dropped from {last} columns to {columns}"
        );
        last = columns;
        width += 7.0;
    }
}

#[test]
fn formats_viewer_counts_compactly() {
    assert_eq!(format_viewers(0), "0");
    assert_eq!(format_viewers(999), "999");
    assert_eq!(format_viewers(1500), "1.5k");
    assert_eq!(format_viewers(2_400_000), "2.4M");
}

/// The count as a floating-point division and one decimal place give it.
fn divided(count: u64) -> String {
    if count >= 1_000_000 {
        format!("{:.1}M", count as f64 / 1_000_000.0)
    } else if count >= 1_000 {
        format!("{:.1}k", count as f64 / 1_000.0)
    } else {
        count.to_string()
    }
}

#[test]
fn a_count_reads_as_its_division_does() {
    for count in 0..60_000u64 {
        assert_eq!(format_viewers(count), divided(count), "{count}");
    }
    let mut count: u64 = 60_000;
    while count < 10_000_000_000_000 {
        for near in [0, 1, 49, 50, 51, 99] {
            assert_eq!(format_viewers(count + near), divided(count + near));
        }
        count += count / 97 + 13;
    }
    for count in [u64::MAX, u64::MAX - 1, 1 << 53, (1 << 53) + 1, 999_949, 999_950, 999_999] {
        assert_eq!(format_viewers(count), divided(count), "{count}");
    }
}

#[test]
fn uptime_reports_hours_and_minutes() {
    let started = Utc::now() - chrono::Duration::minutes(195);
    let text = uptime(&started.to_rfc3339()).unwrap();
    assert_eq!(text, "3h 15m");
}

#[test]
fn uptime_omits_hours_under_one() {
    let started = Utc::now() - chrono::Duration::minutes(7);
    assert_eq!(uptime(&started.to_rfc3339()).unwrap(), "7m");
}

#[test]
fn unparseable_timestamps_yield_nothing() {
    assert!(uptime("").is_none());
    assert!(uptime("last tuesday").is_none());
}

#[test]
fn future_timestamps_yield_nothing() {
    let ahead = Utc::now() + chrono::Duration::hours(1);
    assert!(uptime(&ahead.to_rfc3339()).is_none());
}

#[test]
fn an_uptime_is_counted_from_the_moment_named() {
    let now = parse("2026-09-08T13:15:59Z").unwrap();
    assert_eq!(uptime_at("2026-09-08T10:00:00Z", &now).as_deref(), Some("3h 15m"));
    assert_eq!(uptime_at("2026-09-08T12:00:00+02:00", &now).as_deref(), Some("3h 15m"));
    assert_eq!(uptime_at("2026-09-08T13:16:00Z", &now), None);
    assert_eq!(uptime_at("2026-09-08T13:15:59.500Z", &now).as_deref(), Some("0m"));
    assert_eq!(watching_at(&stream("a", 1500), &now), "1.5k · 3h 15m");
}

#[test]
fn tabs_are_labelled_in_order() {
    let labels: Vec<&str> = Tab::all().iter().map(|tab| tab.label()).collect();
    assert_eq!(labels, vec!["following", "popular", "categories"]);
}

#[test]
fn sign_in_says_how_far_it_has_got() {
    assert_eq!(SignIn::SignedIn("me".into()).summary(), "Signed in as me");
    assert_eq!(SignIn::Connecting.summary(), "Connecting…");
    assert_eq!(SignIn::NeedsClientId.summary(), "Not signed in");
    assert!(SignIn::SignedIn("me".into()).signed_in());
    assert!(!SignIn::Connecting.signed_in());
}

#[test]
fn a_search_shows_a_dozen_categories() {
    let category = Category { id: "1".into(), name: "n".into(), box_art_url: String::new() };
    let mut found = SearchResults { query: "q".into(), categories: Vec::new(), streams: Vec::new() };
    assert!(found.is_empty());
    found.categories = vec![category; 20];
    assert!(!found.is_empty());
    assert_eq!(found.shown(), 12);
}

#[test]
fn nobody_to_show_is_explained() {
    let code = SignIn::AwaitingCode { user_code: "ABCD".into(), verification_uri: "u".into() };
    assert!(matches!(empty_state(&code, false), Empty::Code { .. }));
    assert!(matches!(empty_state(&SignIn::NeedsClientId, false), Empty::Say(notice) if notice.settings));
    assert!(matches!(
        empty_state(&SignIn::Error("refused".into()), false),
        Empty::Say(notice) if notice.error
    ));
}

#[test]
fn the_page_shows_what_was_opened_last() {
    let mut discovery = Discovery::default();
    let signed_in = SignIn::SignedIn("me".into());
    assert!(matches!(discovery.page(true, &signed_in, true), Body::Following));
    assert!(matches!(discovery.page(false, &signed_in, true), Body::Nobody(_)));
    discovery.tab = Tab::Popular;
    discovery.loading = true;
    let Body::Popular(Some(notice)) = discovery.page(true, &signed_in, true) else {
        panic!("an empty tab that is loading says so");
    };
    assert_eq!(notice.title, "Loading…");
    discovery.popular.items.push(stream("a", 1));
    assert!(matches!(discovery.page(true, &signed_in, true), Body::Popular(None)));
    assert_eq!(discovery.browse_placeholder("none").title, "Loading…");
}

#[test]
fn one_cursor_is_not_offered_twice() {
    assert_eq!(load_more_row(false, false), More::Nothing);
    assert_eq!(load_more_row(true, true), More::Loading);
    assert_eq!(load_more_row(true, false), More::Offer);
}
