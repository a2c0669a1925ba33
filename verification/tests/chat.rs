use perch::chat::{
    clock, name_shown, sent_moment, Applied, ChatEvent, ChatMessage, ChatNotice, ChatView,
    NoticeKind, RowKind, Wash, MAX_MESSAGES,
};
use perch::clock::Pattern;
use perch::helix::LiveStream;
use perch::launch::{read_arguments, usage, Launched};
use perch::moment::Moment;
use perch::panes::{live_slot, Opening};
use perch::shell::Shell;
use perch::sidebar::{rail, watched};
use perch::target::Target;

fn message(login: &str, color: u32) -> ChatMessage {
    ChatMessage {
        login: login.into(),
        display_name: login.to_uppercase(),
        color,
        text: "hello".into(),
        emotes: None,
        is_action: false,
        sent_at: Some(1_700_000_000_000),
    }
}

fn said(chat: &ChatView) -> &str {
    match &chat.rows.last().unwrap().kind {
        RowKind::Notice(text) => text,
        _ => panic!("the app's own words"),
    }
}

#[test]
fn a_pane_says_what_it_is_doing() {
    let mut chat = ChatView::new("forsen");
    assert_eq!(chat.connecting, "connecting to #forsen…");
    chat.apply(ChatEvent::Connected { channel: "forsen".into() }, &Pattern::twenty_four_hour());
    assert_eq!(said(&chat), "joined #forsen");
    chat.apply(ChatEvent::Cleared { login: Some("bob".into()) }, &Pattern::twenty_four_hour());
    assert_eq!(said(&chat), "bob was timed out or banned");
    chat.apply(ChatEvent::Cleared { login: None }, &Pattern::twenty_four_hour());
    assert_eq!(said(&chat), "chat was cleared");
    chat.apply(ChatEvent::Disconnected { reason: "gone".into() }, &Pattern::twenty_four_hour());
    assert_eq!(said(&chat), "disconnected: gone — retrying");
    assert_eq!(
        chat.apply(ChatEvent::RoomState { room_id: "42".into() }, &Pattern::twenty_four_hour()),
        Applied::Load("42".into())
    );
    assert_eq!(chat.rows.len(), 4);
}

#[test]
fn old_rows_drop_off_and_stripes_stay_where_they_were() {
    let mut chat = ChatView::new("x");
    for _ in 0..MAX_MESSAGES {
        let event = ChatEvent::Message(Box::new(message("a", 1)));
        assert_eq!(chat.apply_at(event, "12:00".into()), Applied::Row { dropped: 0 });
    }
    let striped = chat.rows[1].striped;
    let seq = chat.rows[1].seq;
    let event = ChatEvent::Message(Box::new(message("b", 2)));
    assert_eq!(chat.apply_at(event, "12:01".into()), Applied::Row { dropped: 1 });
    assert_eq!(chat.rows.len(), MAX_MESSAGES);
    assert_eq!((chat.rows[0].striped, chat.rows[0].seq), (striped, seq));
    for pair in chat.rows.windows(2) {
        assert_ne!(pair[0].striped, pair[1].striped);
        assert_eq!(pair[0].seq + 1, pair[1].seq);
    }
}

#[test]
fn a_mention_has_the_colour_of_whoever_is_mentioned() {
    let mut chat = ChatView::new("x");
    chat.apply_at(ChatEvent::Message(Box::new(message("alice", 0xff0000))), "12:00".into());
    assert_eq!(chat.mention_color("Alice"), Some(0xff0000));
    assert_eq!(chat.mention_color("bob"), None);
    chat.apply_at(ChatEvent::Message(Box::new(message("alice", 0x00ff00))), "12:00".into());
    assert_eq!(chat.mention_color("alice"), Some(0x00ff00));
    let notice = ChatNotice {
        kind: NoticeKind::Other,
        system: "Bob subscribed.".into(),
        body: Some(message("bob", 0x0000ff)),
        sent_at: None,
    };
    chat.apply_at(ChatEvent::Notice(Box::new(notice)), "12:00".into());
    assert_eq!(chat.mention_color("BOB"), Some(0x0000ff));
    assert_eq!(chat.mention_color("alice"), Some(0x00ff00));
}

#[test]
fn the_time_is_said_once_a_minute() {
    let mut chat = ChatView::new("x");
    for stamp in ["12:00", "12:00", "12:01"] {
        chat.apply_at(ChatEvent::Message(Box::new(message("a", 1))), stamp.into());
    }
    assert_eq!(chat.time_break(0).as_deref(), Some("12:00"));
    assert_eq!(chat.time_break(1), None);
    assert_eq!(chat.time_break(2).as_deref(), Some("12:01"));
    assert_eq!(chat.time_break(3), None);
}

#[test]
fn events_are_washed_and_not_striped() {
    let mut chat = ChatView::new("x");
    for kind in [NoticeKind::Raid, NoticeKind::Announcement, NoticeKind::Other] {
        let notice = ChatNotice { kind, system: String::new(), body: None, sent_at: None };
        chat.apply_at(ChatEvent::Notice(Box::new(notice)), "12:00".into());
    }
    assert_eq!(chat.rows[0].kind.wash(), Some(Wash::Loud));
    assert_eq!(chat.rows[1].kind.wash(), Some(Wash::Loud));
    assert_eq!(chat.rows[2].kind.wash(), Some(Wash::Plain));
    assert!(chat.rows.iter().all(|row| !row.shows_stripe()));
    chat.apply_at(ChatEvent::Connected { channel: "x".into() }, "12:00".into());
    chat.apply_at(ChatEvent::Connected { channel: "x".into() }, "12:00".into());
    assert_ne!(chat.rows[3].shows_stripe(), chat.rows[4].shows_stripe());
}

#[test]
fn a_row_is_stamped_with_when_it_was_sent() {
    let now = Moment { secs: 5, nanos: 6 };
    assert_eq!(sent_moment(None, now), now);
    assert_eq!(
        sent_moment(Some(1_700_000_000_123), now),
        Moment { secs: 1_700_000_000, nanos: 123_000_000 }
    );
    assert_eq!(sent_moment(Some(u64::MAX), now), Moment { secs: -1, nanos: 999_000_000 });
    assert_eq!(sent_moment(Some(i64::MAX as u64), now), now, "out of range is now");
    for millis in [0u64, 999, 1_700_000_000_123, u64::MAX, u64::MAX - 1_000, 8_210_266_876_799_999] {
        let real = chrono::DateTime::from_timestamp_millis(millis as i64).unwrap();
        let found = sent_moment(Some(millis), now);
        assert_eq!((found.secs, found.nanos), (real.timestamp(), real.timestamp_subsec_nanos()));
    }
    assert!(chrono::DateTime::from_timestamp_millis(8_210_266_876_800_000).is_none());
    assert_eq!(sent_moment(Some(8_210_266_876_800_000), now), now);
    let local = chrono::DateTime::from_timestamp_millis(1_700_000_000_000)
        .unwrap()
        .with_timezone(&chrono::Local);
    assert_eq!(clock(Some(1_700_000_000_000), &Pattern::twenty_four_hour()), local.format("%H:%M").to_string());
    let twelve = Pattern::new("h:mm tt", "AM", "PM");
    assert_eq!(
        clock(Some(1_700_000_000_000), &twelve),
        local.format("%-I:%M %p").to_string()
    );
}

#[test]
fn an_action_puts_the_name_in_the_sentence() {
    let mut spoken = message("a", 1);
    assert_eq!(name_shown(&spoken), "A:");
    spoken.is_action = true;
    assert_eq!(name_shown(&spoken), "A");
}

// ── The rail ─────────────────────────────────────────────────────────

#[test]
fn the_rail_lists_who_is_live() {
    let stream = |login: &str, viewers: u64| LiveStream {
        user_login: login.into(),
        user_id: String::new(),
        display_name: login.to_uppercase(),
        title: String::new(),
        game_name: "Chess".into(),
        viewer_count: viewers,
        thumbnail_url: String::new(),
        started_at: String::new(),
    };
    let live = vec![stream("a", 1500), stream("b", 3)];
    let avatars = vec![
        ("a".to_string(), "https://cdn/a-profile_image-300x300.png".to_string()),
        ("b".to_string(), "https://cdn/b.png".to_string()),
    ];
    let watching = watched(&vec![live_slot("b".into(), false)]);
    assert_eq!(watching, ["b"]);
    assert!(rail(&live, &avatars, &watching, true, true).is_none());
    let rows = rail(&live, &avatars, &watching, true, false).unwrap();
    assert_eq!(rows[0].picture.as_deref(), Some("https://cdn/a-profile_image-70x70.png"));
    assert_eq!(rows[1].picture.as_deref(), Some("https://cdn/b.png"));
    assert_eq!(rows[0].viewers, "1.5k");
    assert!(!rows[0].watching && rows[1].watching);
    assert!(rows[0].adds);
    assert_eq!(rows[0].name, "A");
}

// ── The command line ─────────────────────────────────────────────────

fn args(list: &[&str]) -> Vec<String> {
    list.iter().map(|arg| arg.to_string()).collect()
}

#[test]
fn arguments_name_what_to_open() {
    let launch = read_arguments(&args(&["Forsen", "--volume", "250", "twitch.tv/videos/5?t=1m"])).unwrap();
    assert_eq!(launch.volume, Some(100));
    assert_eq!(
        launch.targets,
        vec![
            Target::Channel("forsen".into()),
            Target::Video { id: "5".into(), start_secs: Some(60) }
        ]
    );
    assert!(launch.warnings.is_empty());
    assert_eq!(read_arguments(&args(&["--volume", "7"])).unwrap().volume, Some(7));
}

#[test]
fn what_cannot_be_used_is_said() {
    let launch = read_arguments(&args(&["--foo", "not \"a\" login", "--volume", "loud", "--volume"])).unwrap();
    assert_eq!(
        launch.warnings,
        vec![
            "unknown option --foo; ignored",
            "\"not \\\"a\\\" login\" is not a Twitch channel or recording; skipped",
            "--volume needs a number from 0 to 100; ignored",
            "--volume needs a number from 0 to 100; ignored",
        ]
    );
    assert!(launch.targets.is_empty());
    assert_eq!(launch.volume, None);
}

#[test]
fn help_stops_the_reading() {
    assert!(read_arguments(&args(&["a", "--help"])).is_none());
    assert!(read_arguments(&args(&["-h"])).is_none());
    let text = usage("/log", "/settings");
    assert!(text.starts_with("usage: perch [channel...] [--volume 0-100]\n\n"));
    assert!(text.contains("goes to\n/log\n"));
    assert!(text.contains("Name up to 4 channels"));
    assert!(text.ends_with("Settings live at /settings\n"));
}

#[test]
fn the_targets_named_are_opened_side_by_side() {
    let mut shell = Shell::new(false, true);
    let channel = |name: &str| Target::Channel(name.into());
    assert!(matches!(
        shell.open_target(0, channel("a"), false),
        Launched::Channel(Opening::New)
    ));
    assert!(matches!(
        shell.open_target(1, Target::Video { id: "5".into(), start_secs: None }, false),
        Launched::Link(_)
    ));
    assert!(matches!(
        shell.open_target(2, channel("b"), false),
        Launched::Channel(Opening::New)
    ));
    assert!(matches!(shell.open_target(4, channel("c"), false), Launched::Beyond));
    assert_eq!(shell.panes.slots.len(), 2);
    assert_eq!(shell.links.len(), 1);
}

#[test]
fn only_what_was_sent_says_when() {
    let event = ChatEvent::Message(Box::new(message("a", 1)));
    assert_eq!(event.told_sent(), Some(1_700_000_000_000));
    let notice = |sent_at: Option<u64>| {
        ChatEvent::Notice(Box::new(ChatNotice {
            kind: NoticeKind::Raid,
            system: String::new(),
            body: None,
            sent_at,
        }))
    };
    assert_eq!(notice(Some(5)).told_sent(), Some(5));
    assert_eq!(notice(None).told_sent(), None);
    assert_eq!(ChatEvent::Cleared { login: None }.told_sent(), None);
    assert_eq!(ChatEvent::Connected { channel: "x".into() }.told_sent(), None);
}
