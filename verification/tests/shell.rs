use perch::browse::{load_more_row, Action, More, SignIn, Tab};
use perch::follows::{avatar, Follows};
use perch::helix::{Category, FollowedChannel, LiveStream, Video, VideoKind};
use perch::moment::{parse, Moment};
use perch::notices::{
    link_asked, next_link, on_linked_video, open_video_link, LinkFound, LinkOpening, Toasts,
};
use perch::palette::Command;
use perch::panes::{
    live_slot, stream_options, stream_volume, video_slot, ChatToggle, Opening, Page, Panes,
    Playback, Stopped,
};
use perch::settings::{QualityPreference, Settings};
use perch::shell::{Deed, Outcome, Shell};
use perch::twitch::{Listing, Request, TwitchEvent};
use perch::watch::{
    chat_header_from, pane_id, status_message, Slot, StreamState, MAX_PANES,
};
use perch::worker::StreamEvent;

fn now() -> Moment {
    parse("2026-09-08T12:00:00Z").unwrap()
}

fn stream(login: &str, viewers: u64) -> LiveStream {
    LiveStream {
        user_login: login.into(),
        user_id: String::new(),
        display_name: login.to_uppercase(),
        title: "a title".into(),
        game_name: "Chess".into(),
        viewer_count: viewers,
        thumbnail_url: String::new(),
        started_at: "2026-09-08T10:00:00Z".into(),
    }
}

fn video(id: &str, kind: VideoKind) -> Box<Video> {
    Box::new(Video {
        id: id.into(),
        stream_id: None,
        user_id: "2".into(),
        user_login: "someone".into(),
        user_name: "Someone".into(),
        title: "past".into(),
        created_at: "2026-09-07T12:00:00Z".into(),
        length_secs: 3600,
        thumbnail_url: String::new(),
        view_count: 7,
        kind,
    })
}

fn category(id: &str) -> Category {
    Category { id: id.into(), name: format!("name-{id}"), box_art_url: String::new() }
}

fn signed_in() -> Shell {
    let mut shell = Shell::new(false, true);
    shell.apply_twitch_event(TwitchEvent::SignedIn { login: "me".into() });
    shell
}

// ── Panes ────────────────────────────────────────────────────────────

#[test]
fn at_most_four_panes_are_open() {
    let mut panes = Panes::new();
    for name in ["a", "b", "c", "d"] {
        assert!(matches!(panes.open_channel(name.into(), false, false), Opening::New));
    }
    assert_eq!(panes.slots.len(), MAX_PANES);
    assert!(!panes.can_add());
    assert!(matches!(panes.open_channel("e".into(), false, false), Opening::Full));
    assert!(matches!(panes.open_channel("b".into(), false, false), Opening::Existing));
    assert_eq!(panes.slots.len(), MAX_PANES);
    assert!(matches!(panes.open_channel("b".into(), true, false), Opening::Existing));
    assert_eq!(panes.slots.len(), 1, "alone means alone");
    assert_eq!(panes.slots[0].key, "b");
}

#[test]
fn a_recording_is_no_channel() {
    let mut panes = Panes::new();
    panes.open_channel("someone".into(), true, false);
    assert!(matches!(
        panes.open_video_at(video("5", VideoKind::Archive), false, 1_000, false),
        Opening::New
    ));
    assert_eq!(panes.slots.len(), 2);
    assert_eq!(panes.slots[1].resume_at, 1_000);
    assert!(panes.slots[1].has_chat, "an archive's chat is replayed");
    let upload = video_slot(video("6", VideoKind::Upload), 0, false);
    assert!(!upload.has_chat);
    assert_eq!(upload.key, Slot::video_key("6"));
    assert_ne!(panes.slots[0].key, panes.slots[1].key);
}

#[test]
fn closing_a_pane_leaves_the_others_where_they_were() {
    let mut panes = Panes::new();
    for name in ["a", "b", "c"] {
        panes.open_channel(name.into(), false, false);
    }
    panes.activate(1);
    assert_eq!(panes.active_slot(), Some(1));
    panes.close_slot(0);
    assert_eq!(panes.active_slot(), Some(0), "the keyboard stays with its pane");
    assert_eq!(panes.slot_index("c"), Some(1));
    panes.step_active(true);
    assert_eq!(panes.active_slot(), Some(1));
    panes.step_active(true);
    assert_eq!(panes.active_slot(), Some(0), "and goes round");
    panes.stop_all();
    assert!(panes.slots.is_empty());
    assert_eq!(panes.active_slot(), None);
}

#[test]
fn a_stream_goes_from_starting_to_playing_to_ended() {
    let mut panes = Panes::new();
    panes.open_channel("a".into(), true, false);
    panes.serve(0);
    let ready = StreamEvent::Ready {
        url: "http://127.0.0.1:1/".into(),
        quality: "720p60".into(),
        available: vec!["720p60".into(), "160p".into()],
        playlist: None,
    };
    let Some(Playback::Live { url }) = panes.apply_stream_event("a", ready, &now()) else {
        panic!("a ready stream is played");
    };
    assert_eq!(url, "http://127.0.0.1:1/");
    panes.player_started("a", Ok(("720p60".into(), vec!["720p60".into()])), &now());
    assert!(panes.slots[0].is_playing());
    assert!(status_message(&panes.slots[0]).is_none());
    panes.stream_stopped("a", Stopped::Ended, None, &now());
    assert!(matches!(panes.slots[0].state, StreamState::Ended));
    let said = status_message(&panes.slots[0]).unwrap();
    assert!(!said.text.is_empty() && said.retry.is_some());
    assert_eq!(panes.retry_stream("a"), Some(0));
    assert!(matches!(panes.slots[0].state, StreamState::Starting));
}

#[test]
fn an_offline_channel_says_so() {
    let mut panes = Panes::new();
    panes.open_channel("a".into(), true, false);
    panes.serve(0);
    assert!(panes.apply_stream_event("a", StreamEvent::Offline, &now()).is_none());
    assert!(matches!(panes.slots[0].state, StreamState::Offline));
    assert_eq!(panes.slots[0].stalled_at, Some(now()));
    let failed = StreamEvent::Failed { reason: "no".into() };
    panes.apply_stream_event("a", failed, &now());
    assert!(status_message(&panes.slots[0]).unwrap().error);
}

#[test]
fn only_a_sharper_picture_is_worth_a_restart() {
    let mut panes = Panes::new();
    panes.open_channel("a".into(), true, false);
    let playing = StreamState::Playing {
        quality: "360p30".into(),
        available: vec!["1080p60".into(), "360p30".into()],
    };
    panes.slots[0].set_state_at(playing, &now());
    assert_eq!(panes.sync_quality(&QualityPreference::Auto, 1080), vec![0]);
    assert!(panes.sync_quality(&QualityPreference::Auto, 360).is_empty());
    panes.set_quality(0, Some("360p30".into()));
    assert!(panes.sync_quality(&QualityPreference::Auto, 1080).is_empty(), "picked by hand");
}

#[test]
fn a_pane_asks_for_its_quality_and_plays_at_its_level() {
    let mut settings = Settings::default();
    settings.quality = QualityPreference::Fixed("480p".into());
    settings.set_volume_for("a", 42);
    let mut slot = live_slot("a".into(), false);
    assert_eq!(stream_options(&slot, &settings).quality.as_deref(), Some("480p"));
    slot.quality_override = Some("160p".into());
    assert_eq!(stream_options(&slot, &settings).quality.as_deref(), Some("160p"));
    assert_eq!(stream_volume(&slot, &settings, None), 42);
    assert_eq!(stream_volume(&slot, &settings, Some(7)), 7);
}

#[test]
fn chat_is_hidden_where_there_is_one() {
    let mut panes = Panes::new();
    assert!(matches!(panes.toggle_chat(), ChatToggle::Nothing));
    panes.open_channel("a".into(), true, false);
    assert!(matches!(
        panes.toggle_chat(),
        ChatToggle::Changed { channel, hidden: true } if channel == "a"
    ));
    assert!(panes.slots[0].chatless());
    panes.open_video_at(video("6", VideoKind::Upload), true, 0, false);
    assert!(matches!(panes.toggle_chat(), ChatToggle::NoChat));
}

#[test]
fn a_header_says_what_is_on() {
    let slot = live_slot("a".into(), false);
    let known = stream("a", 1500);
    let header = chat_header_from(&slot, Some(&known), &now(), &None);
    assert_eq!(header.name, "A");
    assert_eq!(header.meta, "1.5k · 2h 0m");
    assert!(!header.replay);
    let unknown = chat_header_from(&slot, None, &now(), &None);
    assert_eq!(unknown.name, "a");
    assert_eq!(unknown.meta, "");
    let past = video_slot(video("5", VideoKind::Archive), 0, false);
    assert!(chat_header_from(&past, None, &now(), &Some("yesterday".into())).replay);
    assert_ne!(pane_id("a", "video"), pane_id("a", "chat"));
}

// ── Follows ──────────────────────────────────────────────────────────

#[test]
fn news_is_who_came_online_since_and_the_busiest_first() {
    let mut follows = Follows::default();
    let first = follows.on_streams(vec![stream("a", 5)], &Vec::new());
    assert!(first.news.is_empty(), "who was live at the start is no news");
    let later = follows.on_streams(vec![stream("a", 5), stream("b", 1), stream("c", 9)], &Vec::new());
    let names: Vec<&str> = later.news.iter().map(|news| news.login.as_str()).collect();
    assert_eq!(names, ["c", "b"]);
    assert_eq!(later.news[0].text, "C went live · Chess");
    assert!(follows.loaded || !follows.live.is_empty());
}

#[test]
fn only_the_first_list_is_taken_in_silently() {
    let mut follows = Follows::default();
    follows.on_followed_channels(Vec::new());
    assert!(follows.on_streams(Vec::new(), &Vec::new()).news.is_empty());
    let later = follows.on_streams(vec![stream("a", 5)], &Vec::new());
    assert_eq!(later.news[0].login, "a");
    follows.on_streams(Vec::new(), &Vec::new());
    let again = follows.on_streams(vec![stream("a", 5)], &Vec::new());
    assert_eq!(again.news.len(), 1);
}

#[test]
fn a_waiting_pane_resumes_when_its_channel_comes_online() {
    let mut follows = Follows::default();
    follows.on_streams(Vec::new(), &Vec::new());
    let mut slot = live_slot("a".into(), false);
    slot.set_state_at(StreamState::Offline, &parse("2026-09-08T09:00:00Z").unwrap());
    let arrivals = follows.on_streams(vec![stream("a", 5)], &vec![slot]);
    assert_eq!(arrivals.resumed, ["a"]);
    assert_eq!(arrivals.news.len(), 1, "nobody was live before, and that was known");
}

#[test]
fn who_is_offline_is_whoever_is_not_live() {
    let mut follows = Follows::default();
    follows.on_streams(vec![stream("a", 5)], &Vec::new());
    let channel = |login: &str| FollowedChannel {
        login: login.into(),
        user_id: String::new(),
        display_name: login.into(),
    };
    follows.on_followed_channels(vec![channel("a"), channel("b")]);
    assert_eq!(follows.offline.len(), 1);
    assert_eq!(follows.offline[0].login, "b");
    assert_eq!(follows.on_follows_error("x"), None);
    follows.refreshing = true;
    assert_eq!(follows.on_follows_error("x").as_deref(), Some("could not refresh: x"));
    follows.on_avatars(vec![("a".into(), "one".into())]);
    follows.on_avatars(vec![("b".into(), "two".into()), ("a".into(), "three".into())]);
    assert_eq!(avatar(&follows.avatars, "a").map(String::as_str), Some("three"));
    assert_eq!(avatar(&follows.avatars, "b").map(String::as_str), Some("two"));
    assert_eq!(avatar(&follows.avatars, "z"), None);
}

// ── Toasts and links ─────────────────────────────────────────────────

#[test]
fn a_toast_is_acted_on_once() {
    let mut toasts = Toasts::new();
    let plain = toasts.toast_with("saved".into(), None);
    let live = toasts.toast_with("a went live".into(), Some("a".into()));
    assert_ne!(plain, live);
    toasts.fade(plain);
    assert!(toasts.list[0].leaving);
    toasts.remove(plain);
    assert_eq!(toasts.list.len(), 1);
    assert_eq!(toasts.act_on_toast(live).as_deref(), Some("a"));
    assert_eq!(toasts.act_on_toast(live), None);
}

#[test]
fn a_link_waits_for_sign_in_and_is_asked_about_once() {
    let mut links = Vec::new();
    let connecting = SignIn::Connecting;
    let signed_in = SignIn::SignedIn("me".into());
    assert!(matches!(
        open_video_link(&mut links, &SignIn::NeedsClientId, "5".into(), None),
        LinkOpening::Refused(text) if text == "sign in to open recording 5 by its link"
    ));
    assert!(matches!(
        open_video_link(&mut links, &connecting, "5".into(), Some(60)),
        LinkOpening::Queued
    ));
    assert!(matches!(
        open_video_link(&mut links, &connecting, "5".into(), None),
        LinkOpening::Waiting
    ));
    assert_eq!(next_link(&links, &connecting, 0), None);
    assert_eq!(next_link(&links, &signed_in, 0), Some(0));
    link_asked(&mut links, 0, true);
    assert_eq!(next_link(&links, &signed_in, 0), None);
    let LinkFound::Open { start_at, .. } =
        on_linked_video(&mut links, "5", Ok(*video("5", VideoKind::Archive)))
    else {
        panic!("a found recording opens");
    };
    assert_eq!(start_at, 60_000);
    assert!(links.is_empty());
    assert!(matches!(on_linked_video(&mut links, "5", Err("gone".into())), LinkFound::Nobody));
}

// ── Browsing ─────────────────────────────────────────────────────────

#[test]
fn nothing_is_asked_before_sign_in() {
    let mut shell = Shell::new(false, true);
    assert_eq!(shell.discovery.show_tab(Tab::Popular, false), None);
    let Outcome::SignedIn { ask } =
        shell.apply_twitch_event(TwitchEvent::SignedIn { login: "me".into() })
    else {
        panic!("signed in");
    };
    assert_eq!(ask, Some(Request::Popular { after: None }), "the tab on screen is filled");
}

#[test]
fn a_list_continues_where_it_stopped() {
    let mut shell = signed_in();
    assert!(shell.discovery.show_tab(Tab::Popular, true).is_some());
    shell.discovery.requested(true);
    assert_eq!(shell.discovery.load_more(true), None, "there is nothing to continue yet");
    let page = Listing { items: vec![stream("a", 1)], next: Some("c".into()), append: false };
    shell.apply_twitch_event(TwitchEvent::Popular(page));
    assert_eq!(
        shell.discovery.load_more(true),
        Some(Request::Popular { after: Some("c".into()) })
    );
    shell.discovery.requested(true);
    assert_eq!(load_more_row(true, shell.discovery.loading), More::Loading);
    let last = Listing { items: vec![stream("b", 1)], next: None, append: true };
    shell.apply_twitch_event(TwitchEvent::Popular(last));
    assert_eq!(shell.discovery.popular.items.len(), 2);
    assert_eq!(shell.discovery.load_more(true), None);
}

#[test]
fn a_reply_for_a_page_that_was_left_fills_nothing() {
    let mut shell = signed_in();
    shell.on_browse_action(Action::OpenCategory(category("1")), false);
    shell.on_browse_action(Action::CloseCategory, false);
    shell.on_browse_action(Action::OpenCategory(category("2")), false);
    let stale = TwitchEvent::CategoryStreams {
        category: category("1"),
        streams: Listing { items: vec![stream("a", 1)], next: None, append: false },
    };
    shell.apply_twitch_event(stale);
    assert!(shell.discovery.streams.is_empty());
    shell.discovery.run_search("chess".into(), true);
    let stale = TwitchEvent::SearchResults {
        query: "go".into(),
        categories: vec![category("1")],
        streams: Vec::new(),
    };
    shell.apply_twitch_event(stale);
    assert!(shell.discovery.search.as_ref().unwrap().is_empty());
}

#[test]
fn a_failed_request_signs_nobody_out() {
    let mut shell = signed_in();
    shell.apply_twitch_event(TwitchEvent::BrowseError("down".into()));
    assert!(shell.sign_in.signed_in());
    assert_eq!(shell.discovery.error.as_deref(), Some("down"));
    shell.apply_twitch_event(TwitchEvent::FollowsError("down".into()));
    assert!(shell.sign_in.signed_in());
    shell.apply_twitch_event(TwitchEvent::Error("refused".into()));
    assert!(!shell.sign_in.signed_in());
}

#[test]
fn leaving_the_watch_page_and_coming_back_keeps_the_panes() {
    let mut shell = signed_in();
    shell.on_browse_action(Action::Watch("a".into()), false);
    shell.on_browse_action(Action::Add("b".into()), false);
    assert_eq!(shell.panes.page, Page::Watch);
    assert_eq!(shell.key_context(), "Perch Watch");
    shell.run_command(Command::GoBrowse, false);
    assert_eq!(shell.panes.page, Page::Browse);
    assert_eq!(shell.panes.slots.len(), 2);
    assert!(shell.shows_now_playing());
    assert!(matches!(shell.run_command(Command::GoWatch, false), Deed::Watching(true)));
    assert_eq!(shell.panes.slots.len(), 2);
}

#[test]
fn a_volume_is_remembered_for_the_channel() {
    let mut shell = signed_in();
    let mut settings = Settings::default();
    shell.on_browse_action(Action::Watch("a".into()), false);
    assert!(shell.on_volume_changed(&mut settings, "a", 33));
    assert_eq!(settings.volume_for("a"), 33);
    assert!(!shell.on_volume_changed(&mut settings, "nobody", 50));
    shell.on_browse_action(Action::WatchVideo(video("5", VideoKind::Archive)), false);
    let key = shell.panes.slots[0].key.clone();
    assert!(shell.on_volume_changed(&mut settings, &key, 44));
    assert_eq!(settings.volume_for("someone"), 44);
}

#[test]
fn a_run_of_changes_is_written_once() {
    let mut shell = signed_in();
    let first = shell.save_settings_soon();
    let second = shell.save_settings_soon();
    assert!(!shell.save_is_due(first));
    assert!(shell.save_is_due(second));
    let resized = shell.on_window_resized();
    assert!(shell.resize_is_due(resized));
}

#[test]
fn a_command_closes_what_it_names() {
    let mut shell = signed_in();
    shell.on_browse_action(Action::Watch("a".into()), false);
    shell.on_browse_action(Action::Add("b".into()), false);
    shell.toggle_palette();
    assert!(shell.palette_open);
    assert_eq!(shell.key_context(), "Perch Modal");
    assert!(matches!(shell.run_command(Command::Close(0), false), Deed::Closed));
    assert!(!shell.palette_open);
    assert_eq!(shell.panes.slots[0].key, "b");
    assert!(matches!(shell.run_command(Command::StopAll, false), Deed::Browsing));
    assert!(shell.panes.slots.is_empty());
    assert!(matches!(shell.on_back(), Deed::Watching(false)));
}

#[test]
fn what_is_typed_over_the_follows_narrows_both_lists() {
    let mut follows = Follows::default();
    follows.on_streams(vec![stream("quickybaby", 5), stream("forsen", 1)], &Vec::new());
    let channel = |login: &str, name: &str| FollowedChannel {
        login: login.into(),
        user_id: String::new(),
        display_name: name.into(),
    };
    follows.on_followed_channels(vec![channel("x", "Queen Bee"), channel("zz", "Other")]);
    assert_eq!(follows.narrowed_live("qb"), [0]);
    assert_eq!(follows.narrowed_offline("QB"), [0]);
    assert_eq!(follows.narrowed_offline("zz"), [1]);
    assert_eq!(follows.narrowed_live(""), [0, 1]);
    assert_eq!(follows.narrowed_offline(""), [0, 1]);
    assert!(follows.narrowed_live("nobody").is_empty());
}
