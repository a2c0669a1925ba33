use perch::playlist::parse;
use perch::streamlink::StreamOptions;
use perch::worker::{
    live_step, video_step, Job, LiveInput, LivePhase, Order, StreamEvent, VideoInput, VideoPhase,
};

const ANSWER: &[u8] = br#"{"streams": {"720p60": {"url": "https://cdn.test/720/x.m3u8"},
    "160p": {"url": "https://cdn.test/160/x.m3u8"}, "audio_only": {"url": "https://cdn.test/a"}}}"#;

fn job() -> Job {
    Job {
        subject: "forsen".into(),
        pane_height: 720,
        options: StreamOptions::default(),
        environment: None,
    }
}

#[test]
fn a_live_stream_is_resolved_and_then_served() {
    let turn = live_step(&job(), LivePhase::Searching, LiveInput::Searched(true), false);
    assert!(matches!(turn.event, Some(StreamEvent::Resolving)));
    let Order::Probe(args) = turn.order else {
        panic!("the channel is asked about first");
    };
    assert_eq!(args.last().map(String::as_str), Some("twitch.tv/forsen"));

    let turn = live_step(&job(), turn.next, LiveInput::Probed(Ok(ANSWER.to_vec())), false);
    assert!(turn.event.is_none());
    assert!(matches!(turn.order, Order::Reserve));

    let turn = live_step(&job(), turn.next, LiveInput::Reserved(Ok(4711)), false);
    let Order::Serve(args) = turn.order else {
        panic!("a port leads to a server");
    };
    assert_eq!(args.last().map(String::as_str), Some("720p60"));

    let turn = live_step(&job(), turn.next, LiveInput::Started(Ok(())), false);
    assert!(matches!(turn.order, Order::Read));
    let turn = live_step(&job(), turn.next, LiveInput::Line("[cli] working".into()), false);
    assert!(turn.event.is_none());
    let line = "[cli][info] Starting server, access with one of:";
    let turn = live_step(&job(), turn.next, LiveInput::Line(line.into()), false);
    let Some(StreamEvent::Ready { url, quality, available, playlist }) = turn.event else {
        panic!("the server is up");
    };
    assert_eq!(url, "http://127.0.0.1:4711/");
    assert_eq!(quality, "720p60");
    assert_eq!(available, ["720p60", "160p"]);
    assert!(playlist.is_none());
}

#[test]
fn a_closed_pane_takes_its_server_down() {
    let serving = || LivePhase::Serving { quality: "720p60".into(), menu: Vec::new(), port: 1 };
    let turn = live_step(&job(), serving(), LiveInput::Line("x".into()), true);
    assert!(matches!(turn.order, Order::Kill));
    assert!(matches!(turn.next, LivePhase::Over));
    assert!(turn.event.is_none());
    let turn = live_step(&job(), LivePhase::Searching, LiveInput::Searched(true), true);
    assert!(matches!(turn.order, Order::Retire));
}

#[test]
fn every_way_a_live_stream_fails_is_told() {
    let failed = |phase: LivePhase, input: LiveInput| {
        let turn = live_step(&job(), phase, input, false);
        assert!(matches!(turn.next, LivePhase::Over));
        match turn.event {
            Some(StreamEvent::Failed { reason }) => reason,
            Some(StreamEvent::Offline) => "offline".to_string(),
            _ => panic!("a failure says so"),
        }
    };
    let reserving = || LivePhase::Reserving { quality: "q".into(), menu: Vec::new() };
    let starting = || LivePhase::Starting { quality: "q".into(), menu: Vec::new(), port: 1 };
    assert!(!failed(LivePhase::Searching, LiveInput::Searched(false)).is_empty());
    assert_eq!(
        failed(LivePhase::Probing, LiveInput::Probed(Err("no such file".into()))),
        "could not run streamlink: no such file"
    );
    assert_eq!(
        failed(
            LivePhase::Probing,
            LiveInput::Probed(Ok(br#"{"error": "No playable streams found"}"#.to_vec()))
        ),
        "offline"
    );
    assert_eq!(
        failed(
            LivePhase::Probing,
            LiveInput::Probed(Ok(br#"{"streams": {"audio \"x\"": {"url": "u"}}}"#.to_vec()))
        ),
        r#"no video qualities offered (got ["audio \"x\""])"#
    );
    let two = br#"{"streams": {"audio_one": {"url": "u"}, "audio_two": {"url": "v"}}}"#;
    assert_eq!(
        failed(LivePhase::Probing, LiveInput::Probed(Ok(two.to_vec()))),
        format!("no video qualities offered (got {:?})", ["audio_one", "audio_two"])
    );
    assert_eq!(
        failed(reserving(), LiveInput::Reserved(Err("none left".into()))),
        "could not reserve a port: none left"
    );
    assert_eq!(
        failed(starting(), LiveInput::Started(Err("denied".into()))),
        "could not start streamlink: denied"
    );
}

#[test]
fn a_recording_comes_with_its_playlist() {
    let turn = video_step(&job(), VideoPhase::Searching, VideoInput::Searched(true), false);
    let Order::Probe(args) = turn.order else {
        panic!("the recording is asked about first");
    };
    assert_eq!(args.last().map(String::as_str), Some("twitch.tv/videos/forsen"));
    let turn = video_step(&job(), turn.next, VideoInput::Probed(Ok(ANSWER.to_vec())), false);
    let Order::Fetch(url) = turn.order else {
        panic!("its playlist is fetched");
    };
    assert_eq!(url, "https://cdn.test/720/x.m3u8");
    let list = parse(&url, "#EXTM3U\n#EXTINF:1,\n0.ts\n").unwrap();
    let turn = video_step(&job(), turn.next, VideoInput::Fetched(Ok(list)), false);
    let Some(StreamEvent::Ready { playlist: Some(list), .. }) = turn.event else {
        panic!("a recording plays from its playlist");
    };
    assert_eq!(list.segments[0].url, "https://cdn.test/720/0.ts");
}

#[test]
fn a_recording_without_a_playlist_fails() {
    let fetching = VideoPhase::Fetching { url: "u".into(), quality: "q".into(), menu: Vec::new() };
    let turn = video_step(&job(), fetching, VideoInput::Fetched(Err("404".into())), false);
    assert!(matches!(
        turn.event,
        Some(StreamEvent::Failed { reason }) if reason == "could not read the recording's playlist: 404"
    ));
}
