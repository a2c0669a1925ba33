use perch::quality::Quality;
use perch::streamlink::{
    channel_target, choose_quality, playable_names, probe_args, serve_args, streams_from_json,
    streams_in, twitch_args, video_target, Member, StreamOptions,
};

/// A `--json` answer for a video, cut down from a captured one. What
/// matters is the shape: a map of quality names, each with the playlist
/// the player will open, and the alias entries the menu must not show.
const VIDEO: &str = r#"{
  "plugin": "twitch",
  "metadata": {"id": "2868644730", "author": "forsen", "title": "Games and shit!"},
  "streams": {
    "audio": {"type": "hls", "url": "https://cdn.test/v/audio_only/index-muted-X.m3u8"},
    "160p": {"type": "hls", "url": "https://cdn.test/v/160p30/index-muted-X.m3u8"},
    "720p60": {"type": "hls", "url": "https://cdn.test/v/720p60/index-muted-X.m3u8"},
    "1080p60": {"type": "hls", "url": "https://cdn.test/v/chunked/index-muted-X.m3u8"},
    "worst": {"type": "hls", "url": "https://cdn.test/v/160p30/index-muted-X.m3u8"},
    "best": {"type": "hls", "url": "https://cdn.test/v/chunked/index-muted-X.m3u8"}
  }
}"#;

#[test]
fn a_video_answer_names_every_quality_and_its_playlist() {
    let streams = streams_from_json(VIDEO.as_bytes()).unwrap();
    let mut names: Vec<&str> = streams.iter().map(|offer| offer.name.as_str()).collect();
    names.sort_unstable();
    assert_eq!(
        names,
        ["1080p60", "160p", "720p60", "audio", "best", "worst"]
    );

    let offer = streams.iter().find(|offer| offer.name == "720p60").unwrap();
    assert_eq!(offer.url, "https://cdn.test/v/720p60/index-muted-X.m3u8");

    // A video names its qualities without the frame rate a live stream
    // carries, and calls its audio track "audio": neither is a picture.
    let available: Vec<String> = names.iter().map(|n| n.to_string()).collect();
    assert_eq!(playable_names(&available), ["1080p60", "720p60", "160p"]);
    assert_eq!(
        choose_quality(&available, &StreamOptions::default(), 720)
            .unwrap()
            .name,
        "720p60"
    );
}

#[test]
fn nothing_playable_is_empty_not_an_error() {
    let off = r#"{"error": "No playable streams found on this URL: https://www.twitch.tv/videos/1"}"#;
    assert_eq!(streams_from_json(off.as_bytes()).unwrap(), Vec::new());

    let other = r#"{"error": "Unable to open URL: timeout"}"#;
    assert_eq!(
        streams_from_json(other.as_bytes()).unwrap_err(),
        "Unable to open URL: timeout"
    );
}

#[test]
fn a_channel_and_a_video_are_different_paths_on_twitch() {
    assert_eq!(channel_target("forsen"), "twitch.tv/forsen");
    assert_eq!(video_target("2868644730"), "twitch.tv/videos/2868644730");
    let args = twitch_args(&video_target("1"), &StreamOptions::default(), &None);
    assert_eq!(args.last().map(String::as_str), Some("twitch.tv/videos/1"));
}

#[test]
fn what_is_no_json_is_an_error() {
    let reason = streams_from_json(b"{ not json").unwrap_err();
    assert!(reason.starts_with("streamlink returned unreadable JSON: "), "{reason}");
    assert_eq!(
        reason,
        format!(
            "streamlink returned unreadable JSON: {}",
            serde_json::from_slice::<serde_json::Value>(b"{ not json").unwrap_err()
        )
    );
}

#[test]
fn an_offer_without_a_playlist_has_an_empty_one() {
    let member = |name: &str, value: Option<&str>| Member {
        name: name.into(),
        value: value.map(String::from),
    };
    let offers = streams_in(None, Some(vec![member("a", Some("u")), member("b", None)])).unwrap();
    assert_eq!(offers.len(), 2);
    assert_eq!((offers[0].name.as_str(), offers[0].url.as_str()), ("a", "u"));
    assert_eq!((offers[1].name.as_str(), offers[1].url.as_str()), ("b", ""));
    assert_eq!(streams_in(None, None).unwrap(), Vec::new());
    assert_eq!(streams_from_json(br#"{"streams": {"720p": {}}}"#).unwrap()[0].url, "");
}

#[test]
fn a_token_is_sent_where_there_is_one() {
    let mut options = StreamOptions::default();
    assert_eq!(twitch_args("t", &options, &None).len(), 3);
    let from_environment = twitch_args("t", &options, &Some("env".into()));
    assert!(from_environment.contains(&"Authorization=OAuth env".to_string()));
    options.auth_token = Some("own".into());
    let own = twitch_args("t", &options, &Some("env".into()));
    assert!(own.contains(&"Authorization=OAuth own".to_string()));
    options.auth_token = Some(String::new());
    assert_eq!(options.token(&Some("env".into())), None, "an empty token sends nothing");
}

#[test]
fn a_stream_is_served_on_loopback_only() {
    let options = StreamOptions::default();
    let args = serve_args(4711, "twitch.tv/forsen", &options, &None, "720p60");
    assert_eq!(
        args,
        [
            "--player-external-http",
            "--player-external-http-port",
            "4711",
            "--player-external-http-interface",
            "127.0.0.1",
            "--twitch-low-latency",
            "--twitch-supported-codecs",
            "h264,h265,av1",
            "twitch.tv/forsen",
            "720p60",
        ]
    );
    assert_eq!(probe_args("t", &options, &None)[0], "--json");
}

#[test]
fn something_is_chosen_where_anything_is_playable() {
    let names: Vec<String> = ["160p", "audio_only"].iter().map(|s| s.to_string()).collect();
    let options = StreamOptions { quality: Some("1080p60".into()), auth_token: None };
    assert_eq!(
        choose_quality(&names, &options, 720),
        Some(Quality { name: "160p".into(), height: 160, fps: 30 })
    );
    assert_eq!(choose_quality(&names[1..], &options, 720), None);
}
