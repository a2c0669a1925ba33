use perch::clock::{pattern, push_number, stamp, system, twelve_hour, Pattern};
use perch::moment::Moment;

fn us() -> Pattern {
    Pattern::new("h:mm tt", "AM", "PM")
}

#[test]
fn a_windows_twelve_hour_pattern_reads_like_the_taskbar() {
    assert_eq!(us().render(23, 41, 0), "11:41 PM");
    assert_eq!(us().render(0, 5, 0), "12:05 AM");
    assert_eq!(us().render(12, 0, 0), "12:00 PM");
    assert_eq!(us().render(9, 7, 0), "9:07 AM");
}

#[test]
fn a_twenty_four_hour_pattern_pads_the_hour() {
    let de = Pattern::new("HH:mm", "", "");
    assert_eq!(de.render(9, 7, 0), "09:07");
    assert_eq!(de.render(23, 41, 0), "23:41");
    let fr = Pattern::new("H:mm", "", "");
    assert_eq!(fr.render(9, 7, 0), "9:07");
}

#[test]
fn an_icu_pattern_uses_the_locale_symbols() {
    let ja = Pattern::new("aK:mm", "午前", "午後");
    assert_eq!(ja.render(23, 41, 0), "午後11:41");
    assert_eq!(ja.render(0, 5, 0), "午前0:05");
    let us_icu = Pattern::new("h:mm a", "AM", "PM");
    assert_eq!(us_icu.render(13, 30, 0), "1:30 PM");
}

#[test]
fn a_single_t_is_the_first_letter_of_the_designator() {
    let short = Pattern::new("h:mm t", "AM", "PM");
    assert_eq!(short.render(13, 30, 0), "1:30 P");
}

#[test]
fn quoted_text_is_literal_and_seconds_are_available() {
    let odd = Pattern::new("HH'h'mm''ss", "", "");
    assert_eq!(odd.render(9, 7, 3), "09h07'03");
    let at = Pattern::new("'at 'h:mm a", "am", "pm");
    assert_eq!(at.render(9, 7, 0), "at 9:07 am");
    let k = Pattern::new("kk:mm", "", "");
    assert_eq!(k.render(0, 1, 0), "24:01");
}

#[test]
fn the_fallback_is_what_chat_always_showed() {
    assert_eq!(Pattern::twenty_four_hour().render(23, 41, 0), "23:41");
}

#[test]
fn the_system_pattern_renders_a_plausible_time() {
    for locale in ["", "C", "en_US.UTF-8", "de_DE"] {
        let text = system(pattern(&[None, None, Some(locale.to_string())])).render(15, 4, 0);
        assert!(text.contains("04"), "no minutes in {text:?}");
        assert!(
            text.contains("15") || text.contains('3'),
            "no hour in {text:?}"
        );
    }
}

#[test]
fn the_first_locale_that_is_set_decides() {
    let american = Some("en_US.UTF-8".to_string());
    let german = Some("de_DE.UTF-8".to_string());
    assert!(pattern(&[german.clone(), american.clone(), None]).is_none());
    let found = pattern(&[Some(String::new()), american, german]).unwrap();
    assert_eq!(found.render(15, 4, 0), "3:04 PM");
    assert!(pattern(&[None, None, None]).is_none());
    assert_eq!(system(None).render(15, 4, 0), "15:04");
}

#[test]
fn the_clock_has_no_hour_zero_in_twelve() {
    assert_eq!(twelve_hour(0), 12);
    assert_eq!(twelve_hour(12), 12);
    assert_eq!(twelve_hour(23), 11);
    let mut out = String::from("x");
    push_number(&mut out, 7, true);
    push_number(&mut out, 7, false);
    assert_eq!(out, "x077");
}

#[test]
fn what_is_no_field_stands_for_itself() {
    assert_eq!(Pattern::new("::--..", "", "").render(1, 2, 3), "::--..");
    assert_eq!(Pattern::new("'hh mm'", "", "").render(1, 2, 3), "hh mm");
}

#[test]
fn a_moment_is_stamped_with_a_time_of_day() {
    let text = stamp(Moment { secs: 1_700_000_000, nanos: 0 }, &Pattern::new("HH:mm:ss", "", ""));
    assert_eq!(text.len(), 8);
    // Zones are whole minutes apart today, so the seconds are the same anywhere.
    assert!(text.ends_with(":20"), "{text}");
}

#[test]
fn a_letter_that_is_no_field_stands_for_itself() {
    assert_eq!(Pattern::new("HH:mm zzz Uhr", "", "").render(7, 5, 0), "07:05 zzz U7r");
    assert_eq!(Pattern::new("xyZ Q.", "", "").render(7, 5, 0), "xyZ Q.");
}
