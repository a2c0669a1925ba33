use perch::helix::{FollowedChannel, LiveStream};
use perch::palette::{
    clamped, entries, move_selection, rows_on_screen, Command, Entry, MAX_ROWS,
};

fn stream(login: &str, name: &str) -> LiveStream {
    LiveStream {
        user_login: login.into(),
        user_id: String::new(),
        display_name: name.into(),
        title: String::new(),
        game_name: String::new(),
        viewer_count: 0,
        thumbnail_url: String::new(),
        started_at: String::new(),
    }
}

#[test]
fn a_subsequence_matches_the_way_initials_do() {
    assert!(perch::palette::matches("QuickyBaby", "qb"));
    assert!(perch::palette::matches("QuickyBaby", "quick"));
    assert!(perch::palette::matches("QuickyBaby", "QUICKY"));
    assert!(!perch::palette::matches("QuickyBaby", "xyz"));
    assert!(!perch::palette::matches("QuickyBaby", "byq"), "order has to be kept");
}

#[test]
fn an_empty_query_matches_everything() {
    assert!(perch::palette::matches("anything", ""));
    assert!(perch::palette::matches("", ""));
}

/// The palette is opened to go somewhere far more often than to do
/// something, so a channel must never sit below a command.
#[test]
fn channels_come_before_commands() {
    let follows = [stream("forsen", "Forsen")];
    let entries = entries("", &follows, &[], &[], &[], true);

    let first_command = entries
        .iter()
        .position(|entry| entry.kind == "command")
        .expect("the commands should be there");
    let last_channel = entries
        .iter()
        .rposition(|entry| entry.kind == "watch")
        .expect("the channel should be there");
    assert!(last_channel < first_command);
}

/// "Add a pane" beside nothing is the same thing as "watch", and offering
/// both doubles the list for no choice.
#[test]
fn adding_is_only_offered_when_something_is_already_open() {
    let follows = [stream("forsen", "Forsen")];

    let alone = entries("", &follows, &[], &[], &[], true);
    assert!(!alone.iter().any(|entry| entry.kind == "add"));

    let beside = entries("", &follows, &[], &[], &["quin69".into()], true);
    assert!(beside.iter().any(|entry| entry.kind == "add"));

    let full = entries("", &follows, &[], &[], &["quin69".into()], false);
    assert!(
        !full.iter().any(|entry| entry.kind == "add"),
        "a fifth pane cannot be added, so it should not be offered"
    );
}

/// A channel that is already open still opens — solo — but the row says
/// which one you are looking at.
#[test]
fn an_open_channel_says_so() {
    let follows = [stream("forsen", "Forsen")];
    let entries = entries("", &follows, &[], &[], &["forsen".into()], true);
    assert_eq!(entries[0].kind, "watching");
    assert_eq!(entries[0].command, Command::Watch("forsen".into()));
}

#[test]
fn every_open_pane_can_be_closed_by_name() {
    let watching: Vec<String> = vec!["forsen".into(), "quin69".into()];
    let entries = entries("close quin", &[], &[], &[], &watching, true);
    assert_eq!(entries.len(), 1);
    assert_eq!(entries[0].command, Command::Close(1));
}

/// Filtering by login matters as much as by display name: they differ for
/// anyone whose name is not ASCII, and the login is what you type.
#[test]
fn a_channel_is_found_by_either_of_its_names() {
    let follows = [stream("kato_junichi0817", "加藤純一")];
    let by_login = entries("kato", &follows, &[], &[], &[], false);
    assert_eq!(by_login.iter().filter(|e| e.kind == "watch").count(), 1);
    let by_name = entries("加藤", &follows, &[], &[], &[], false);
    assert_eq!(by_name.iter().filter(|e| e.kind == "watch").count(), 1);
}

/// The offline list is the one that actually needs a filter, so it is in
/// here — but only once something is typed, or an empty palette would be
/// a hundred people who are not streaming above the commands.
#[test]
fn offline_follows_appear_only_for_a_typed_query_and_after_live_ones() {
    let follows = [stream("forsen", "Forsen")];
    let offline = [FollowedChannel {
        login: "fextralife".into(),
        user_id: "9".into(),
        display_name: "Fextralife".into(),
    }];

    let blank = entries("", &follows, &offline, &[], &[], false);
    assert!(!blank.iter().any(|entry| entry.kind == "offline"));

    let typed = entries("f", &follows, &offline, &[], &[], false);
    let live = typed
        .iter()
        .position(|entry| entry.kind == "watch")
        .unwrap();
    let off = typed
        .iter()
        .position(|entry| entry.kind == "offline")
        .unwrap();
    assert!(live < off, "an offline channel outranked a live one");
    assert_eq!(typed[off].command, Command::Watch("fextralife".into()));
}

/// Past broadcasts are offered for everyone, after the rows that open a
/// channel now, and only once something is typed. An id the list already
/// had rides along; an empty one is nothing rather than an empty string.
#[test]
fn past_broadcasts_are_offered_for_live_and_offline_alike_once_typed() {
    let follows = [stream("forsen", "Forsen")];
    let offline = [FollowedChannel {
        login: "fextralife".into(),
        user_id: "9".into(),
        display_name: "Fextralife".into(),
    }];

    let blank = entries("", &follows, &offline, &[], &[], false);
    assert!(!blank.iter().any(|entry| entry.kind == "videos"));

    let typed = entries("f", &follows, &offline, &[], &[], false);
    let videos: Vec<&Entry> = typed
        .iter()
        .filter(|entry| entry.kind == "videos")
        .collect();
    assert_eq!(videos.len(), 2);
    assert_eq!(
        videos[0].command,
        Command::Videos {
            login: "forsen".into(),
            display_name: "Forsen".into(),
            user_id: None,
        }
    );
    assert_eq!(
        videos[1].command,
        Command::Videos {
            login: "fextralife".into(),
            display_name: "Fextralife".into(),
            user_id: Some("9".into()),
        }
    );
    let last_now = typed
        .iter()
        .rposition(|entry| entry.kind == "watch" || entry.kind == "offline")
        .unwrap();
    let first_past = typed
        .iter()
        .position(|entry| entry.kind == "videos")
        .unwrap();
    assert!(last_now < first_past, "a recording outranked a channel");
}

/// With nothing typed the list leads with what was watched last, and a
/// channel that is both recent and live is one row, not two.
#[test]
fn recently_watched_leads_an_empty_palette_once() {
    let follows = [stream("forsen", "Forsen"), stream("xqc", "xQc")];
    let recent: Vec<String> = vec!["xqc".into(), "quin69".into()];

    let blank = entries("", &follows, &[], &recent, &[], false);
    assert_eq!(blank[0].command, Command::Watch("xqc".into()));
    assert_eq!(blank[0].kind, "recent");
    assert_eq!(
        blank[0].title, "xQc",
        "named the way the live list names it"
    );
    assert_eq!(blank[1].command, Command::Watch("quin69".into()));
    assert_eq!(blank[1].kind, "recent");
    assert_eq!(
        blank
            .iter()
            .filter(|entry| entry.command == Command::Watch("xqc".into()))
            .count(),
        1,
        "a recent live channel was listed twice"
    );
    assert_eq!(blank[2].command, Command::Watch("forsen".into()));

    // Typed, the recents step aside: the lists and the typed name cover it.
    let typed = entries("q", &follows, &[], &recent, &[], false);
    assert!(!typed.iter().any(|entry| entry.kind == "recent"));
}

/// A channel nobody follows is still a channel: typed, it gets a row to
/// open it and one for its recordings. While a follow still matches the
/// typing it is a filter, and gets neither; nor does a thing that is not
/// a login.
#[test]
fn a_channel_nobody_follows_can_be_opened_by_name() {
    let follows = [stream("forsen", "Forsen")];

    let unknown = entries("xqc", &follows, &[], &[], &[], false);
    assert_eq!(unknown[0].command, Command::Watch("xqc".into()));
    assert_eq!(unknown[0].kind, "channel");
    assert!(matches!(
        &unknown[1].command,
        Command::Videos { login, user_id: None, .. } if login == "xqc"
    ));

    let known = entries("forsen", &follows, &[], &[], &[], false);
    assert!(!known.iter().any(|entry| entry.kind == "channel"));
    let filtering = entries("f", &follows, &[], &[], &[], false);
    assert!(
        !filtering.iter().any(|entry| entry.kind == "channel"),
        "a filter keystroke offered to open a channel called that"
    );
    assert_eq!(
        known
            .iter()
            .filter(|entry| entry.command == Command::Watch("forsen".into()))
            .count(),
        1
    );

    let nonsense = entries("not a login", &follows, &[], &[], &[], false);
    assert!(!nonsense.iter().any(|entry| entry.kind == "channel"));
}

/// A pasted link to a recording opens it, from where the link points.
#[test]
fn a_recording_link_becomes_a_row() {
    let found = entries(
        "https://www.twitch.tv/videos/123?t=1m",
        &[],
        &[],
        &[],
        &[],
        false,
    );
    assert_eq!(
        found[0].command,
        Command::OpenVideo {
            id: "123".into(),
            start_secs: Some(60),
        }
    );
    assert_eq!(found[0].kind, "recording");
}

#[test]
fn case_is_folded_beyond_ascii() {
    assert!(perch::palette::matches("ÄRGER", "ä"));
    assert!(perch::palette::matches("Straße", "STRASSE") == perch::palette::matches("straße", "strasse"));
    assert!(perch::palette::matches("İstanbul", "i"));
}

#[test]
fn the_cursor_goes_round_the_list() {
    assert_eq!(move_selection(0, false, 5), 4);
    assert_eq!(move_selection(4, true, 5), 0);
    assert_eq!(move_selection(2, true, 5), 3);
    assert_eq!(move_selection(3, true, 0), 3);
    assert_eq!(clamped(9, 4), 3);
    assert_eq!(clamped(9, 0), 0);
}

#[test]
fn the_selection_is_always_on_screen() {
    for count in 0..40 {
        for selected in 0..count {
            let (first, last) = rows_on_screen(selected, count);
            assert!(first <= selected && selected < last && last <= count);
            assert!(last - first <= MAX_ROWS);
        }
    }
    assert_eq!(rows_on_screen(0, 0), (0, 0));
}

#[test]
fn a_link_to_a_channel_is_offered_whatever_answers_to_it() {
    let odd = [stream("odd", "twitch.tv/somebody else")];
    let found = entries("twitch.tv/somebody", &odd, &[], &[], &[], false);
    assert!(found.iter().any(|entry| entry.command == Command::Watch("odd".into())));
    let open = found.iter().find(|entry| entry.command == Command::Watch("somebody".into()));
    assert_eq!(open.unwrap().title, "Open somebody");
    let named = [stream("somebody2", "somebody2")];
    let filtered = entries("somebody", &named, &[], &[], &[], false);
    assert!(!filtered.iter().any(|entry| entry.command == Command::Watch("somebody".into())));
}
