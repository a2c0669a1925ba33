use perch::helix::{Category, FollowedChannel, LiveStream, Video, VideoKind};
use perch::settings::OAuthTokens;
use perch::twitch::{
    begin_sign_in, keep_session_fresh, poll_follows, serve, sign_in_step, start, worker_step,
    DeviceCode, Failure, FollowsInput, FollowsOrder, FollowsPhase, Poll, Reply, Request, Session,
    SignInInput, SignInOrder, SignInPhase, Start, TwitchEvent, Worker, WorkerInput, WorkerOrder,
    WorkerPhase, POLL_INTERVAL,
};

fn session(token: &str) -> Session {
    Session {
        access_token: token.into(),
        refresh_token: format!("refresh-{token}"),
        expires_at: 100,
        user_id: "1".into(),
        login: "me".into(),
    }
}

fn tokens() -> OAuthTokens {
    OAuthTokens {
        access_token: "old".into(),
        refresh_token: "refresh-old".into(),
        expires_at: 100,
        user_id: "1".into(),
        login: "me".into(),
    }
}

fn stream(login: &str) -> LiveStream {
    LiveStream {
        user_login: login.into(),
        user_id: String::new(),
        display_name: login.into(),
        title: String::new(),
        game_name: String::new(),
        viewer_count: 1,
        thumbnail_url: String::new(),
        started_at: String::new(),
    }
}

#[test]
fn a_worker_needs_settings_and_a_client_id() {
    assert!(matches!(start(false, &None), Start::Stop(TwitchEvent::Error(_))));
    assert!(matches!(start(true, &None), Start::Stop(TwitchEvent::NeedsClientId)));
    assert!(matches!(start(true, &Some(String::new())), Start::Stop(TwitchEvent::NeedsClientId)));
    assert!(matches!(
        start(true, &Some("app".into())),
        Start::SignIn { client_id } if client_id == "app"
    ));
}

#[test]
fn a_stored_session_that_is_fresh_signs_in_at_once() {
    let turn = begin_sign_in(Some(tokens()), false);
    assert!(matches!(turn.next, SignInPhase::Over));
    assert!(matches!(
        turn.order,
        SignInOrder::Finish(Some(session)) if session.access_token == "old"
    ));
}

#[test]
fn an_unreachable_twitch_is_tried_again_before_the_token_is_given_up() {
    let mut turn = begin_sign_in(Some(tokens()), true);
    let mut refreshes = 0;
    loop {
        match turn.order {
            SignInOrder::Refresh(_) => {
                refreshes += 1;
                turn = sign_in_step(
                    turn.next,
                    SignInInput::NotRefreshed {
                        failure: Failure::Network("down".into()),
                        expired: false,
                    },
                );
            }
            SignInOrder::Wait(_) => turn = sign_in_step(turn.next, SignInInput::Waited { whole: true }),
            SignInOrder::Finish(found) => {
                assert_eq!(found.map(|session| session.access_token).as_deref(), Some("old"));
                break;
            }
            _ => panic!("an unspent token leads to no device code"),
        }
    }
    assert_eq!(refreshes, 3);
}

#[test]
fn a_refused_refresh_asks_for_a_device_code() {
    let turn = begin_sign_in(Some(tokens()), true);
    let refused = SignInInput::NotRefreshed {
        failure: Failure::Refused("dead".into()),
        expired: true,
    };
    let turn = sign_in_step(turn.next, refused);
    assert!(matches!(turn.order, SignInOrder::StartDevice));

    let code = DeviceCode {
        device_code: "dev".into(),
        user_code: "ABCD".into(),
        verification_uri: "https://twitch.tv/activate".into(),
        interval: 5,
        expires_in: 60,
    };
    let turn = sign_in_step(turn.next, SignInInput::Device { answer: Ok(code), now: 0 });
    assert!(matches!(&turn.told[0], TwitchEvent::AwaitingCode { user_code, .. } if user_code == "ABCD"));
    assert!(matches!(turn.order, SignInOrder::Wait(5)));
    let turn = sign_in_step(turn.next, SignInInput::Waited { whole: true });
    assert!(matches!(&turn.order, SignInOrder::Poll(code) if code == "dev"));
    let turn = sign_in_step(turn.next, SignInInput::Polled { answer: Poll::SlowDown, now: 5_000 });
    assert!(matches!(turn.order, SignInOrder::Wait(10)), "a slow-down is heeded");
    let turn = sign_in_step(turn.next, SignInInput::Waited { whole: true });
    let turn = sign_in_step(
        turn.next,
        SignInInput::Polled {
            answer: Poll::Session { session: session("new"), saved: Ok(()) },
            now: 15_000,
        },
    );
    assert!(matches!(turn.next, SignInPhase::Over));
    assert!(matches!(
        turn.order,
        SignInOrder::Finish(Some(session)) if session.access_token == "new"
    ));
}

#[test]
fn a_code_that_runs_out_ends_the_sign_in() {
    let polling = SignInPhase::Polling { device_code: "dev".into(), interval: 5, deadline: 10_000 };
    let turn = sign_in_step(polling, SignInInput::Polled { answer: Poll::Pending, now: 9_999 });
    assert!(matches!(turn.order, SignInOrder::Wait(5)));
    let polling = SignInPhase::Polling { device_code: "dev".into(), interval: 5, deadline: 10_000 };
    let turn = sign_in_step(polling, SignInInput::Polled { answer: Poll::Network, now: 10_000 });
    assert!(matches!(turn.order, SignInOrder::Finish(None)));
    assert!(matches!(&turn.told[0], TwitchEvent::Error(reason) if reason == "the sign-in code expired"));
    let polling = SignInPhase::Polling { device_code: "dev".into(), interval: 5, deadline: 10_000 };
    let turn = sign_in_step(
        polling,
        SignInInput::Polled { answer: Poll::Failed("denied".into()), now: 1 },
    );
    assert!(matches!(turn.order, SignInOrder::Finish(None)));
    assert!(matches!(&turn.told[0], TwitchEvent::Error(_)));
}

#[test]
fn a_session_outlives_a_network_that_does_not() {
    assert!(keep_session_fresh(None).usable);
    let fresh = keep_session_fresh(Some(Ok(session("new"))));
    assert_eq!(fresh.session.unwrap().access_token, "new");
    let down = keep_session_fresh(Some(Err(Failure::Network("x".into()))));
    assert!(down.usable && down.session.is_none());
    let refused = keep_session_fresh(Some(Err(Failure::Refused("no".into()))));
    assert!(!refused.usable);
    assert!(matches!(
        refused.told,
        Some(TwitchEvent::Error(reason)) if reason == "refresh failed: no"
    ));
}

#[test]
fn a_poll_tells_who_is_live_then_how_they_look_then_who_is_followed() {
    let turn = poll_follows(
        FollowsPhase::Streams,
        FollowsInput::Streams(Ok(vec![stream("a"), stream("b")])),
        false,
    );
    assert!(matches!(&turn.told[0], TwitchEvent::Streams(list) if list.len() == 2));
    assert!(matches!(&turn.order, FollowsOrder::Avatars(logins) if logins == &["a", "b"]));
    let turn = poll_follows(turn.next, FollowsInput::Avatars(Err("x".into())), false);
    assert!(matches!(turn.order, FollowsOrder::Channels));
    let channel = FollowedChannel { login: "c".into(), user_id: "3".into(), display_name: "C".into() };
    let turn = poll_follows(turn.next, FollowsInput::Channels(Ok(vec![channel])), false);
    assert!(matches!(&turn.told[0], TwitchEvent::FollowedChannels(list) if list.len() == 1));
    assert!(matches!(turn.order, FollowsOrder::Finish));
}

#[test]
fn a_poll_complains_once_at_most() {
    let turn = poll_follows(FollowsPhase::Streams, FollowsInput::Streams(Err("one".into())), false);
    let mut complaints = turn.told.len();
    let turn = poll_follows(turn.next, FollowsInput::Channels(Err("two".into())), false);
    complaints += turn.told.len();
    assert_eq!(complaints, 1);
    assert!(matches!(&turn.told[0], TwitchEvent::FollowsError(_)));
}

#[test]
fn a_request_waits_for_a_fresh_session_and_a_poll_moves_the_timer() {
    let mut worker = Worker { phase: WorkerPhase::Idle, next_poll: 0 };
    assert!(matches!(
        worker_step(&mut worker, WorkerInput::Clock { stopped: false }, 5),
        WorkerOrder::Freshen
    ));
    assert!(matches!(
        worker_step(&mut worker, WorkerInput::Fresh { usable: true }, 6),
        WorkerOrder::Poll
    ));
    let WorkerOrder::Listen { wait } = worker_step(&mut worker, WorkerInput::Polled, 7) else {
        panic!("between polls it listens");
    };
    assert_eq!(wait, POLL_INTERVAL);
    assert_eq!(worker.next_poll, POLL_INTERVAL + 7);
    let asked = WorkerInput::Asked(Request::Popular { after: None });
    assert!(matches!(worker_step(&mut worker, asked, 9), WorkerOrder::Freshen));
    assert!(matches!(
        worker_step(&mut worker, WorkerInput::Fresh { usable: true }, 9),
        WorkerOrder::Serve(Request::Popular { .. })
    ));
    assert!(matches!(worker_step(&mut worker, WorkerInput::Served, 9), WorkerOrder::Look));
    let clock = WorkerInput::Clock { stopped: false };
    let WorkerOrder::Listen { wait } = worker_step(&mut worker, clock, 17) else {
        panic!("what was answered leaves the timer alone");
    };
    assert_eq!(wait, POLL_INTERVAL - 10);
    worker_step(&mut worker, WorkerInput::Asked(Request::Follows), 20);
    worker_step(&mut worker, WorkerInput::Fresh { usable: true }, 20);
    assert!(matches!(worker_step(&mut worker, WorkerInput::Polled, 30), WorkerOrder::Look));
    assert_eq!(worker.next_poll, POLL_INTERVAL + 30);
    worker.phase = WorkerPhase::Listening;
    assert!(matches!(worker_step(&mut worker, WorkerInput::Dropped, 9), WorkerOrder::End));
}

#[test]
fn an_unusable_session_ends_the_worker() {
    let mut worker = Worker { phase: WorkerPhase::Freshening { request: None }, next_poll: 0 };
    assert!(matches!(
        worker_step(&mut worker, WorkerInput::Fresh { usable: false }, 0),
        WorkerOrder::End
    ));
}

#[test]
fn every_request_is_answered_in_kind() {
    let category = Category { id: "7".into(), name: "Chess".into(), box_art_url: String::new() };
    let first = serve(Request::Popular { after: None }, Reply::Streams(Ok((vec![stream("a")], None))));
    assert!(matches!(first, TwitchEvent::Popular(page) if !page.append));
    let next = serve(
        Request::Category { category, after: Some("c".into()) },
        Reply::Streams(Ok((vec![stream("a")], Some("d".into())))),
    );
    assert!(matches!(
        next,
        TwitchEvent::CategoryStreams { category, streams }
            if category.name == "Chess" && streams.append && streams.next.as_deref() == Some("d")
    ));
    let failed = serve(Request::Search("q".into()), Reply::Found(Err("down".into())));
    assert!(matches!(failed, TwitchEvent::BrowseError(reason) if reason.contains("down")));
    let video = Video {
        id: "5".into(),
        stream_id: None,
        user_id: "2".into(),
        user_login: "x".into(),
        user_name: "X".into(),
        title: String::new(),
        created_at: String::new(),
        length_secs: 1,
        thumbnail_url: String::new(),
        view_count: 0,
        kind: VideoKind::Upload,
    };
    let found = serve(Request::Video { id: "5".into() }, Reply::Video(Ok(video)));
    assert!(matches!(found, TwitchEvent::Video { id, result: Ok(_) } if id == "5"));
}
