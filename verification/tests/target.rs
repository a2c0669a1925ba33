use perch::target::{is_login, parse, parse_duration, Target};

fn channel(name: &str) -> Option<Target> {
    Some(Target::Channel(name.into()))
}

fn video(id: &str, start_secs: Option<u64>) -> Option<Target> {
    Some(Target::Video {
        id: id.into(),
        start_secs,
    })
}

#[test]
fn a_name_is_a_channel_however_it_is_written() {
    assert_eq!(parse("forsen"), channel("forsen"));
    assert_eq!(parse("  #Forsen "), channel("forsen"));
    assert_eq!(parse("twitch.tv/forsen"), channel("forsen"));
    assert_eq!(parse("https://www.twitch.tv/Forsen/"), channel("forsen"));
    assert_eq!(
        parse("http://m.twitch.tv/forsen?referrer=x"),
        channel("forsen")
    );
    assert_eq!(
        parse("https://www.twitch.tv/forsen/videos"),
        channel("forsen")
    );
}

#[test]
fn a_recording_link_names_the_video_and_where_to_start() {
    assert_eq!(
        parse("https://www.twitch.tv/videos/2868644730"),
        video("2868644730", None)
    );
    assert_eq!(
        parse("twitch.tv/videos/2868644730?t=1h2m3s&x=1"),
        video("2868644730", Some(3723))
    );
    assert_eq!(
        parse("https://www.twitch.tv/forsen/video/2868644730?t=30s"),
        video("2868644730", Some(30))
    );
    assert_eq!(parse("twitch.tv/videos/v123"), video("123", None));
    // A start the link garbles is no start, not a refusal.
    assert_eq!(parse("twitch.tv/videos/5?t=soon"), video("5", None));
}

#[test]
fn what_is_neither_is_nothing() {
    assert_eq!(parse(""), None);
    assert_eq!(parse("has space"), None);
    assert_eq!(parse("lol.jpg"), None);
    assert_eq!(parse("https://youtube.com/watch?v=1"), None);
    assert_eq!(parse("twitch.tv"), None);
    assert_eq!(parse("twitch.tv/videos/notanumber"), None);
    assert_eq!(parse("twitch.tv/directory/game/chess"), None);
    assert_eq!(
        parse("https://www.twitch.tv/directory"),
        None,
        "the site's own pages are not channels"
    );
}

#[test]
fn what_was_read_as_a_channel_is_read_as_it_again() {
    for typed in ["#FORSEN", "https://twitch.tv/Some_One/videos"] {
        let Some(Target::Channel(login)) = parse(typed) else {
            panic!("{typed} is a channel");
        };
        assert_eq!(parse(&login), channel(&login));
    }
}

#[test]
fn a_duration_is_counted_in_its_units() {
    assert_eq!(parse_duration("1h2m3s"), Some(3723));
    assert_eq!(parse_duration("90m"), Some(5400));
    assert_eq!(parse_duration("45s"), Some(45));
    assert_eq!(parse_duration("soon"), None);
    assert_eq!(parse_duration("1x"), None);
}

#[test]
fn a_login_is_letters_digits_and_underscores() {
    assert!(is_login("Some_One1"));
    assert!(!is_login("some-one"));
    assert!(!is_login(""));
}

#[test]
fn a_login_may_carry_the_hash_of_its_room() {
    assert_eq!(parse("#Someone_1"), channel("someone_1"));
    assert_eq!(parse("Someone_1"), channel("someone_1"));
}

#[test]
fn every_form_of_a_link_names_the_same_place() {
    for scheme in ["", "http://", "https://"] {
        for host in ["twitch.tv", "www.twitch.tv", "m.twitch.tv", "WWW.Twitch.TV"] {
            assert_eq!(parse(&format!("{scheme}{host}/Someone")), channel("someone"));
            assert_eq!(parse(&format!("{scheme}{host}/Directory")), None);
            for page in ["", "/", "/videos", "/videos/"] {
                for query in ["", "?", "?sort=time&t=1h"] {
                    let link = format!("{scheme}{host}/Someone{page}{query}");
                    assert_eq!(parse(&link), channel("someone"), "{link}");
                    assert_eq!(parse(&format!("{scheme}{host}/turbo{page}{query}")), None);
                }
            }
            assert_eq!(parse(&format!("{scheme}{host}/videos/42")), video("42", None));
            assert_eq!(parse(&format!("{scheme}{host}/videos/42?t=1m1s")), video("42", Some(61)));
        }
    }
    assert_eq!(parse(" \t "), None);
}
