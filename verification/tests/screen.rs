use perch::browse::{Action, SearchResults, Tab};
use perch::chat::{at_live, message_line, overhangs, Piece, Token};
use perch::helix::{Category, LiveStream, Video, VideoKind};
use perch::layout::{
    arrange, initial_window_bounds, Body, Placement, Shares, WindowOpening, PIXEL,
};
use perch::moment::parse;
use perch::player::{quality_rows, Player};
use perch::screen::{
    following_headings, pane, search_headings, stream_row, video_card, ChatPlace, PaneBody,
};
use perch::seek_bar::Timeline;
use perch::shell::Shell;
use perch::streamlink::candidates;
use perch::text::words_of;
use perch::twitch::{Listing, TwitchEvent};
use perch::watch::StreamState;

const SHARES: Shares = Shares { least: 200_000, most: 800_000 };

fn stream(login: &str) -> LiveStream {
    LiveStream {
        user_login: login.into(),
        user_id: String::new(),
        display_name: login.to_uppercase(),
        title: "a title".into(),
        game_name: "Chess".into(),
        viewer_count: 1500,
        thumbnail_url: String::new(),
        started_at: "2026-09-08T10:00:00Z".into(),
    }
}

fn video() -> Video {
    Video {
        id: "5".into(),
        stream_id: None,
        user_id: "2".into(),
        user_login: "someone".into(),
        user_name: "Someone".into(),
        title: "past".into(),
        created_at: "2026-09-07T12:00:00Z".into(),
        length_secs: 3600,
        thumbnail_url: String::new(),
        view_count: 7,
        kind: VideoKind::Archive,
    }
}

fn watching(names: &[&str]) -> Shell {
    let mut shell = Shell::new(false, true);
    shell.apply_twitch_event(TwitchEvent::SignedIn { login: "me".into() });
    for name in names {
        shell.on_browse_action(Action::Add(name.to_string()), false);
    }
    shell
}

#[test]
fn the_header_offers_the_way_back_to_what_is_playing() {
    let mut shell = watching(&["a", "b"]);
    let header = shell.browse_header();
    assert_eq!(header.resume.as_deref(), Some("watching 2"));
    assert_eq!(header.summary, "Signed in as me");
    assert_eq!(header.refresh, "refresh");
    assert!(!header.expand);
    let selected: Vec<Tab> =
        header.tabs.iter().filter(|pill| pill.selected).map(|pill| pill.tab).collect();
    assert_eq!(selected, vec![Tab::Following]);
    shell.panes.stop_all();
    shell.follows.refreshing = true;
    shell.sidebar_collapsed = true;
    let header = shell.browse_header();
    assert_eq!(header.resume, None);
    assert_eq!(header.refresh, "refreshing…");
    assert!(header.expand);
}

#[test]
fn what_plays_while_one_browses_is_named() {
    let mut shell = watching(&["a", "b"]);
    shell.apply_twitch_event(TwitchEvent::Streams(vec![stream("a")]));
    let bar = shell.now_playing().unwrap();
    assert_eq!(bar[0].name, "A", "as the follows list calls it");
    assert_eq!(bar[1].name, "b");
    assert_eq!(bar[0].id, "mini-a");
    assert!(!bar[0].playing);
    shell.miniplayer = false;
    assert!(shell.now_playing().is_none());
}

#[test]
fn a_notice_offers_what_it_names() {
    let mut shell = watching(&["a"]);
    shell.toasts.toast_with("saved".into(), None);
    shell.toasts.toast_with("b went live".into(), Some("b".into()));
    let rows = shell.toast_stack();
    assert!(!rows[0].opens && !rows[0].adds);
    assert!(rows[1].opens && rows[1].adds);
    shell.panes.stop_all();
    assert!(!shell.toast_stack()[1].adds, "there is nothing to open it beside");
}

#[test]
fn a_header_has_the_live_numbers_of_a_live_pane_only() {
    let mut shell = watching(&["a"]);
    shell.apply_twitch_event(TwitchEvent::Popular(Listing {
        items: vec![stream("a"), stream("someone")],
        next: None,
        append: false,
    }));
    assert_eq!(shell.pane_info(0).unwrap().user_login, "a");
    shell.on_browse_action(Action::AddVideo(Box::new(video())), false);
    assert!(shell.pane_info(1).is_none());
    assert!(!shell.channel_is_live());
    shell.open_channel_page("someone".into(), "Someone".into(), None);
    assert!(shell.channel_is_live());
}

#[test]
fn a_pane_without_chat_gives_the_video_its_cell() {
    let mut shell = watching(&["a"]);
    let wide = arrange(1, Body { width: 1600 * PIXEL, height: 900 * PIXEL }, 0);
    let tall = arrange(1, Body { width: 900 * PIXEL, height: 1600 * PIXEL }, 0);
    let slot = &shell.panes.slots[0];
    let plan = pane(0, slot, &wide, true, None, 0, SHARES);
    assert!(matches!(plan.body, PaneBody::Says(_)));
    assert_eq!(plan.chat, ChatPlace::Beside { width: 260 * PIXEL });
    assert!(!plan.marked && !plan.closable && !plan.reserves_corner);
    let below = pane(0, slot, &tall, true, None, 0, SHARES);
    assert_eq!(below.chat, ChatPlace::Below { video_height: (900 * PIXEL * 9 / 16) as u64 });
    shell.panes.toggle_chat();
    let slot = &mut shell.panes.slots[0];
    slot.set_state_at(
        StreamState::Playing { quality: "q".into(), available: Vec::new() },
        &parse("2026-09-08T12:00:00Z").unwrap(),
    );
    let bare = pane(0, slot, &wide, true, None, 0, SHARES);
    assert_eq!(bare.chat, ChatPlace::Nowhere);
    assert_eq!(bare.body, PaneBody::Player);
    assert!(bare.reserves_corner);
}

#[test]
fn cards_say_who_and_for_how_long() {
    let now = parse("2026-09-08T12:00:00Z").unwrap();
    let row = stream_row(&vec![stream("a"), stream("b")], &now, true);
    assert_eq!(row.len(), 2);
    assert_eq!(row[0].watching, "1.5k · 2h 0m");
    assert_eq!(row[1].name, "B");
    assert!(row[0].adds);
    let card = video_card(&video(), &now, &Some("yesterday".into()), false);
    assert_eq!(card.corner, "1h 0m");
    assert_eq!(card.line, "yesterday · 7 views");
    assert!(!card.live_dot && !card.adds);
}

#[test]
fn a_list_alone_needs_no_heading() {
    assert_eq!(following_headings(3, 0), (false, false));
    assert_eq!(following_headings(3, 2), (true, true));
    assert_eq!(following_headings(0, 2), (false, true));
    let category = Category { id: "1".into(), name: "n".into(), box_art_url: String::new() };
    let results = SearchResults {
        query: "q".into(),
        categories: vec![category; 30],
        streams: Vec::new(),
    };
    assert_eq!(search_headings(&results), (false, 12));
}

#[test]
fn a_message_wraps_between_its_words_and_emotes() {
    let text = |s: &str| Token::Text(s.into());
    let emote = |s: &str| Token::Emote { name: s.into(), url: format!("u/{s}") };
    let tokens = vec![text("  hello  you "), emote("Kappa"), text("\u{3000}there"), emote("LUL")];
    assert!(overhangs(&tokens));
    assert!(!overhangs(&vec![text("x")]));
    let word = |s: &str, position: usize| Piece::Word { text: s.into(), position };
    let picture =
        |s: &str, position: usize| Piece::Emote { name: s.into(), url: format!("u/{s}"), position };
    assert_eq!(
        message_line(tokens),
        vec![word("hello", 0), word("you", 1), picture("Kappa", 0), word("there", 2), picture("LUL", 1)]
    );
}

#[test]
fn words_are_what_stands_between_white_space() {
    for text in ["", "   ", "a", " a b\tc\n", "x\u{a0}y\u{2028}z", "\u{200b}zero width"] {
        assert_eq!(words_of(text), text.split_whitespace().collect::<Vec<_>>(), "{text:?}");
    }
}

#[test]
fn a_chat_is_live_within_a_pixel_of_its_end() {
    let px = PIXEL as i64;
    assert!(at_live(0, 0));
    assert!(at_live(100 * px, 99 * px));
    assert!(!at_live(100 * px, 98 * px));
}

#[test]
fn the_buttons_say_what_they_would_do() {
    let mut player = Player::new(40);
    assert_eq!(player.buttons().playback, "pause");
    assert_eq!(player.buttons().sound, "mute");
    assert_eq!(player.buttons().level, "40%");
    player.toggle_playback();
    player.toggle_mute();
    assert_eq!(player.buttons().playback, "play");
    assert_eq!(player.buttons().sound, "unmute");
    let offered = vec!["720p60".to_string(), "160p".to_string()];
    assert_eq!(quality_rows(&offered, "160p"), vec![false, true]);
}

#[test]
fn a_held_thumb_says_where_it_would_seek() {
    let timeline = Some(Timeline { length: 7_200_000, growing: false });
    let mut player = Player::new(40);
    let row = player.seek_row(&timeline, 1_800_000, 0).unwrap();
    assert_eq!(row.played, 250_000);
    assert_eq!((row.position.as_str(), row.extent.as_str()), ("30:00", "2:00:00"));
    player.scrub_to(500_000);
    assert_eq!(player.seek_row(&timeline, 1_800_000, 0).unwrap().position, "1:00:00");
    assert!(player.seek_row(&None, 0, 0).is_none());
}

#[test]
fn a_window_opens_where_it_was_if_that_is_still_there() {
    let saved = Placement { x: -5, y: 7, width: 800, height: 600, maximized: true };
    assert_eq!(
        initial_window_bounds(Some(saved), true, None),
        WindowOpening::Restored(saved)
    );
    assert_eq!(
        initial_window_bounds(Some(saved), false, None),
        WindowOpening::Centred { width: 1600 * PIXEL, height: 920 * PIXEL }
    );
    assert_eq!(
        initial_window_bounds(None, true, Some((1000 * PIXEL, 4000 * PIXEL))),
        WindowOpening::Centred { width: 900 * PIXEL, height: 920 * PIXEL }
    );
}

#[test]
fn streamlink_is_looked_for_where_it_is_said_to_be() {
    assert_eq!(candidates(&Some("/my/streamlink".into()), false), ["/my/streamlink"]);
    assert_eq!(candidates(&None, false)[0], "streamlink");
    assert_eq!(candidates(&None, false).len(), 4);
    assert_eq!(
        candidates(&None, true)[1],
        r"C:\Program Files\Streamlink\bin\streamlink.exe"
    );
}
