use perch::quality::{cost, parse_quality, select, select_named, Quality};

fn names(list: &[&str]) -> Vec<String> {
    list.iter().map(|s| s.to_string()).collect()
}

#[test]
fn a_pane_with_no_height_gets_the_smallest_stream_not_a_panic() {
    let picked = select(&names(&["1080p60", "720p60", "360p30"]), 0).unwrap();
    assert_eq!(picked.name, "360p30");
}

const TWITCH: [&str; 8] = [
    "audio_only",
    "160p30",
    "360p30",
    "480p30",
    "720p60",
    "1080p60",
    "worst",
    "best",
];

#[test]
fn parses_quality_names() {
    assert_eq!(
        parse_quality("720p60"),
        Some(Quality {
            name: "720p60".into(),
            height: 720,
            fps: 60
        })
    );
    assert_eq!(parse_quality("480p").map(|q| q.fps), Some(30));
    assert_eq!(parse_quality("audio_only"), None);
    assert_eq!(parse_quality("best"), None);
}

#[test]
fn prefers_an_exact_match() {
    let picked = select(&names(&TWITCH), 1080).unwrap();
    assert_eq!(picked.name, "1080p60");
}

#[test]
fn prefers_an_exact_half_over_a_nearer_awkward_ratio() {
    let picked = select(&names(&TWITCH), 540).unwrap();
    assert_eq!(picked.name, "1080p60");
}

#[test]
fn never_upscales_when_a_larger_source_exists() {
    let picked = select(&names(&TWITCH), 900).unwrap();
    assert_eq!(picked.name, "1080p60");
}

#[test]
fn falls_back_to_the_largest_when_the_pane_exceeds_every_source() {
    let picked = select(&names(&["360p30", "480p30"]), 1440).unwrap();
    assert_eq!(picked.name, "480p30");
}

#[test]
fn ignores_non_resolution_entries() {
    assert_eq!(select(&names(&["audio_only", "best", "worst"]), 720), None);
}

#[test]
fn prefers_higher_fps_at_equal_cost() {
    let picked = select(&names(&["720p", "720p60"]), 720).unwrap();
    assert_eq!(picked.name, "720p60");
}

#[test]
fn named_preference_matches_by_height_across_naming_styles() {
    // Preference says "480p"; this channel calls it "480p30".
    let picked = select_named(&names(&TWITCH), "480p", 720).unwrap();
    assert_eq!(picked.name, "480p30");
}

#[test]
fn named_preference_prefers_higher_fps_at_the_same_height() {
    let list = names(&["720p", "720p60", "1080p60"]);
    assert_eq!(select_named(&list, "720p", 720).unwrap().name, "720p60");
}

#[test]
fn best_takes_the_highest_available() {
    let list = names(&["audio_only", "160p30", "720p60", "1440p60", "1080p60"]);
    assert_eq!(select_named(&list, "best", 720).unwrap().name, "1440p60");
}

#[test]
fn auto_defers_to_pane_based_selection() {
    // 720 pane with 720p60 present: exact 1:1 beats halving 1440p60.
    let list = names(&["720p60", "1440p60"]);
    assert_eq!(select_named(&list, "auto", 720).unwrap().name, "720p60");
}

#[test]
fn unavailable_preference_falls_back_instead_of_failing() {
    // No 1440p on this channel today.
    let picked = select_named(&names(&TWITCH), "1440p", 720).unwrap();
    assert_eq!(picked.name, "720p60");
}

#[test]
fn exact_name_still_wins_when_offered() {
    let picked = select_named(&names(&TWITCH), "360p30", 720).unwrap();
    assert_eq!(picked.name, "360p30");
}

#[test]
fn exact_third_beats_an_arbitrary_ratio() {
    // 1080/360 = 3 exactly; 480 -> 360 is 1.33x.
    let picked = select(&names(&["480p30", "1080p60"]), 360).unwrap();
    assert_eq!(picked.name, "1080p60");
}

#[test]
fn the_best_is_never_lower_than_another() {
    let list = names(&["1080p30", "1080p60", "720p60"]);
    assert_eq!(select_named(&list, " BEST ", 10).unwrap().name, "1080p60");
}

#[test]
fn a_quality_name_needs_digits_that_fit() {
    assert!(parse_quality("p60").is_none());
    assert!(parse_quality("99999999999p60").is_none());
    assert!(parse_quality("").is_none());
}

#[test]
fn a_clean_ratio_costs_less_than_an_awkward_one() {
    assert!(cost(1080, 540) < cost(720, 540));
    assert!(cost(720, 720) < cost(1080, 720));
    assert!(cost(360, 720) > cost(1080, 720));
}

#[test]
fn a_preference_for_nothing_on_offer_never_fails() {
    assert_eq!(select_named(&names(&["audio_only"]), "720p", 720), None);
    assert_eq!(select_named(&names(&["160p30"]), "nonsense", 720).unwrap().name, "160p30");
}

#[test]
fn no_source_is_scaled_up_while_a_taller_one_is_on_offer() {
    assert_eq!(select(&names(&["719p", "100001p"]), 720).unwrap().name, "100001p");
    assert_eq!(select(&names(&["4294967295p", "719p"]), 720).unwrap().name, "4294967295p");
    assert!(cost(719, 720) > cost(u32::MAX, 720));
    assert_eq!(cost(719, 720), 0x1_0000_0001);
}
