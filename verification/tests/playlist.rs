use perch::playlist::{absolute, attribute, parse, read_answer};
use perch::seconds::Seconds;
use perch::span::{Length, Span};

const BASE: &str = "https://cdn.test/abc_someone_1_2/720p60/index-muted-X.m3u8";

fn seconds(thousandths: u64) -> Seconds {
    Seconds::Finite { negative: false, thousandths }
}

fn span(thousandths: u128) -> Span {
    Span { negative: false, thousandths }
}

/// A fragmented-MP4 playlist as Twitch writes it, cut short.
const FMP4: &str = "#EXTM3U\n#EXT-X-VERSION:6\n#EXT-X-TARGETDURATION:10\n#ID3-EQUIV-TDTG:2026-09-08T08:58:33\n#EXT-X-PLAYLIST-TYPE:EVENT\n#EXT-X-MEDIA-SEQUENCE:0\n#EXT-X-TWITCH-ELAPSED-SECS:0.000\n#EXT-X-TWITCH-TOTAL-SECS:25.500\n#EXT-X-MAP:URI=\"init-0.mp4\"\n#EXTINF:10.000,\n0.mp4\n#EXTINF:10.000,\n1.mp4\n#EXTINF:5.500,\n2-muted.mp4\n#EXT-X-ENDLIST\n";

/// A transport-stream playlist, still being recorded.
const TS: &str = "#EXTM3U\n#EXT-X-VERSION:3\n#EXT-X-TARGETDURATION:12\n#EXT-X-PLAYLIST-TYPE:EVENT\n#EXT-X-MEDIA-SEQUENCE:0\n#EXT-X-PROGRAM-DATE-TIME:2026-09-08T13:01:54.435Z\n#EXTINF:10.000,\n0.ts\n#EXT-X-DISCONTINUITY\n#EXTINF:10.000,\n1.ts\n";

#[test]
fn a_fragmented_playlist_parses_with_its_init_segment_and_end() {
    let playlist = parse(BASE, FMP4).unwrap();
    assert_eq!(playlist.version, 6);
    assert_eq!(playlist.target_duration, 10);
    assert_eq!(
        playlist.init.as_deref(),
        Some("https://cdn.test/abc_someone_1_2/720p60/init-0.mp4")
    );
    assert_eq!(playlist.segments.len(), 3);
    assert_eq!(
        playlist.segments[2].url,
        "https://cdn.test/abc_someone_1_2/720p60/2-muted.mp4"
    );
    assert_eq!(playlist.segments[2].duration, seconds(5_500));
    assert!(playlist.ended);
    assert_eq!(playlist.length(), Length::Finite(span(25_500)));
}

#[test]
fn a_transport_stream_playlist_parses_and_is_still_growing() {
    let playlist = parse(BASE, TS).unwrap();
    assert_eq!(playlist.init, None);
    assert!(!playlist.ended);
    assert_eq!(playlist.segments.len(), 2);
    assert!(playlist.segments[1].discontinuity);
    assert!(!playlist.segments[0].discontinuity);
    assert_eq!(playlist.refresh_interval(), 12);
}

#[test]
fn what_is_not_a_playlist_is_refused() {
    assert!(parse(BASE, "<html>nope</html>").is_err());
    assert!(
        parse(BASE, "#EXTM3U\n#EXT-X-VERSION:3\n").is_err(),
        "no segments"
    );
}

#[test]
fn references_come_out_absolute_whatever_form_they_took() {
    assert_eq!(
        absolute(BASE, "5.mp4"),
        "https://cdn.test/abc_someone_1_2/720p60/5.mp4"
    );
    assert_eq!(
        absolute(BASE, "/other/init.mp4"),
        "https://cdn.test/other/init.mp4"
    );
    assert_eq!(
        absolute(BASE, "https://elsewhere.test/x.ts"),
        "https://elsewhere.test/x.ts"
    );
}

#[test]
fn a_second_is_found_in_its_segment() {
    let playlist = parse(BASE, FMP4).unwrap();
    assert_eq!(playlist.segment_at(0), (0, span(0)));
    assert_eq!(playlist.segment_at(9_999), (0, span(0)));
    assert_eq!(playlist.segment_at(10_000), (1, span(10_000)));
    assert_eq!(playlist.segment_at(23_000), (2, span(20_000)));
    assert_eq!(
        playlist.segment_at(99_000),
        (2, span(20_000)),
        "past the end lands in the last"
    );
    assert_eq!(playlist.segment_at(-1), (0, span(0)), "before the start lands in the first");
}

#[test]
fn a_rewritten_playlist_starts_where_asked_and_keeps_what_the_player_needs() {
    let playlist = parse(BASE, FMP4).unwrap();
    let text = playlist.render_from(1);
    assert_eq!(
        text,
        "#EXTM3U\n#EXT-X-VERSION:6\n#EXT-X-TARGETDURATION:10\n#EXT-X-MEDIA-SEQUENCE:1\n#EXT-X-PLAYLIST-TYPE:VOD\n#EXT-X-MAP:URI=\"https://cdn.test/abc_someone_1_2/720p60/init-0.mp4\"\n#EXTINF:10.000,\nhttps://cdn.test/abc_someone_1_2/720p60/1.mp4\n#EXTINF:5.500,\nhttps://cdn.test/abc_someone_1_2/720p60/2-muted.mp4\n#EXT-X-ENDLIST\n"
    );

    let growing = parse(BASE, TS).unwrap();
    let text = growing.render_from(0);
    assert!(!text.contains("ENDLIST"), "a growing playlist has no end");
    assert!(
        text.contains("#EXT-X-PLAYLIST-TYPE:EVENT\n"),
        "and is an EVENT playlist, which is what keeps it seekable"
    );
    assert!(text.contains(
        "#EXT-X-DISCONTINUITY\n#EXTINF:10.000,\nhttps://cdn.test/abc_someone_1_2/720p60/1.ts\n"
    ));
}

#[test]
fn a_growing_playlist_is_absorbed_and_its_new_tail_appended() {
    let mut held = parse(BASE, TS).unwrap();
    let fresh = parse(BASE, &format!("{TS}#EXTINF:8.000,\n2.ts\n#EXT-X-ENDLIST\n")).unwrap();
    held.absorb(fresh);
    assert_eq!(held.segments.len(), 3);
    assert!(held.ended);
    assert_eq!(
        held.tail(2),
        "#EXTINF:8.000,\nhttps://cdn.test/abc_someone_1_2/720p60/2.ts\n#EXT-X-ENDLIST\n"
    );
    assert_eq!(held.tail(3), "#EXT-X-ENDLIST\n");

    // A reading with nothing new changes nothing.
    let same = held.clone();
    held.absorb(same);
    assert_eq!(held.segments.len(), 3);
}

#[test]
fn what_was_rewritten_reads_back() {
    let playlist = parse(BASE, FMP4).unwrap();
    let again = parse(BASE, &playlist.render_from(1)).unwrap();
    assert_eq!(again.segments.len(), 2);
    assert_eq!(again.segments[0], playlist.segments[1]);
    assert_eq!(again.segments[1], playlist.segments[2]);
    assert_eq!(again.init, playlist.init);
    assert_eq!(again.version, playlist.version);
    assert_eq!(again.target_duration, playlist.target_duration);
    assert!(again.ended);
}

#[test]
fn growth_is_appended_and_never_rewritten() {
    let before = parse(BASE, TS).unwrap();
    let mut after = before.clone();
    after.absorb(parse(BASE, &format!("{TS}#EXTINF:8.000,\n2.ts\n")).unwrap());
    assert_eq!(
        format!("{}{}", before.render_from(0), after.tail(before.segments.len())),
        after.render_from(0)
    );
    assert!(after.length().count() > before.length().count());
}

#[test]
fn a_shorter_reading_takes_nothing_back() {
    let mut held = parse(BASE, FMP4).unwrap();
    held.absorb(parse(BASE, "#EXTM3U\n#EXTINF:1.000,\nx.ts\n").unwrap());
    assert_eq!(held.segments.len(), 3);
    assert_eq!(held.segments[0].duration, seconds(10_000));
    assert!(held.ended);
}

#[test]
fn attributes_are_found_by_their_key() {
    assert_eq!(attribute("URI=\"a,b\",X=1", "URI").as_deref(), Some("a,b"));
    assert_eq!(attribute("X=1", "URI"), None);
}

#[test]
fn an_answer_that_is_not_a_success_is_an_error() {
    assert!(read_answer(BASE, 404, Ok(FMP4.to_string())).is_err());
    assert!(read_answer(BASE, 200, Err("cut off".to_string())).is_err());
    assert_eq!(read_answer(BASE, 200, Ok(FMP4.to_string())).unwrap().segments.len(), 3);
}

#[test]
fn a_refresh_is_neither_hasty_nor_late() {
    let short = parse(BASE, "#EXTM3U\n#EXT-X-TARGETDURATION:1\n#EXTINF:1,\na.ts\n").unwrap();
    assert_eq!(short.refresh_interval(), 2);
    let long = parse(BASE, "#EXTM3U\n#EXT-X-TARGETDURATION:90\n#EXTINF:1,\na.ts\n").unwrap();
    assert_eq!(long.refresh_interval(), 30);
}

#[test]
fn a_recording_may_have_segments_that_take_time_back_or_never_end() {
    let of = |lines: &[&str]| {
        let body: String = lines.iter().map(|line| format!("#EXTINF:{line},\na.ts\n")).collect();
        parse(BASE, &format!("#EXTM3U\n{body}")).unwrap()
    };
    let back = of(&["-5", "20"]);
    assert_eq!(back.length(), Length::Finite(span(15_000)));
    assert_eq!(back.segment_at(-6_000), (0, span(0)));
    assert_eq!(back.segment_at(0), (1, Span { negative: true, thousandths: 5_000 }));
    assert_eq!(back.segment_at(15_000), (1, span(0)), "and what lies behind the end from nothing");
    assert_eq!(of(&["10", "-20"]).length().count(), 0);
    assert!(back.tail(0).starts_with("#EXTINF:-5.000,\n"));

    let endless = of(&["10", "inf", "10"]);
    assert_eq!(endless.length(), Length::Infinite { negative: false });
    assert_eq!(endless.length().count(), u64::MAX);
    assert_eq!(endless.segment_at(i64::MAX), (1, span(10_000)));
    assert!(endless.tail(1).starts_with("#EXTINF:inf,\n"));
    assert_eq!(of(&["inf", "-inf"]).length(), Length::NoNumber);
    assert_eq!(of(&["-inf", "10"]).segment_at(0), (1, span(0)));
    assert!(of(&["-inf"]).tail(0).starts_with("#EXTINF:-inf,\n"));

    let unknown = of(&["10", "nan", "10"]);
    assert_eq!(unknown.length(), Length::NoNumber);
    assert_eq!(unknown.segment_at(9_999), (0, span(0)));
    assert_eq!(unknown.segment_at(10_000), (2, span(0)));
    assert!(unknown.tail(1).starts_with("#EXTINF:NaN,\n"));
    assert_eq!(parse(BASE, &unknown.render_from(0)).unwrap(), unknown);
    assert!(of(&["-0.0001"]).tail(0).starts_with("#EXTINF:-0.000,\n"));
}

/// The same by double precision: which segment, and where it starts.
#[test]
fn segments_are_found_where_doubles_find_them() {
    let texts = ["10", "-5", "inf", "-inf", "nan", "0", "2.5"];
    for a in texts {
        for b in texts {
            for c in texts {
                let body: String =
                    [a, b, c].iter().map(|x| format!("#EXTINF:{x},\na.ts\n")).collect();
                let list = parse(BASE, &format!("#EXTM3U\n{body}")).unwrap();
                let durations: Vec<f64> = [a, b, c].iter().map(|x| x.parse().unwrap()).collect();
                for at in [-10_000, -1, 0, 1, 2_500, 5_000, 9_999, 10_000, 30_000] {
                    let secs = at as f64 / 1000.0;
                    let mut before = 0.0;
                    let mut found = None;
                    for (index, duration) in durations.iter().enumerate() {
                        if secs < before + duration {
                            found = Some((index, before));
                            break;
                        }
                        before += duration;
                    }
                    let (index, start) = found.unwrap_or((2, (before - durations[2]).max(0.0)));
                    let (ours, span) = list.segment_at(at);
                    let value = span.thousandths as f64 * if span.negative { -1.0 } else { 1.0 };
                    assert_eq!((ours, value / 1000.0), (index, start), "{a} {b} {c} at {at}");
                }
                let length: f64 = durations.iter().sum();
                assert_eq!(list.length().count(), (length * 1000.0).round() as u64, "{a} {b} {c}");
            }
        }
    }
}
