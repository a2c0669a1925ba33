use perch::playlist::parse;
use perch::seconds::{push, read, Seconds};

fn number(text: &str) -> Option<Seconds> {
    read(&text.chars().collect::<Vec<char>>())
}

/// The thousandths of a number that is not negative.
fn duration(text: &str) -> Option<u64> {
    match number(text)? {
        Seconds::Finite { negative: false, thousandths } => Some(thousandths),
        other => panic!("{text}: {other:?}"),
    }
}

/// What std reads the text as, and writes of it with three places.
fn by_double(text: &str) -> Option<u64> {
    let value: f64 = text.parse().ok()?;
    let digits = format!("{value:.3}").replace('.', "");
    Some(digits.parse::<u128>().map_or(u64::MAX, |all| all.min(u64::MAX as u128) as u64))
}

#[test]
fn a_duration_may_be_written_as_any_number() {
    assert_eq!(duration("9.967"), Some(9_967));
    assert_eq!(duration("1e1"), Some(10_000));
    assert_eq!(duration("1E+1"), Some(10_000));
    assert_eq!(duration("125e-2"), Some(1_250));
    assert_eq!(duration("+10"), Some(10_000));
    assert_eq!(duration(".5"), Some(500));
    assert_eq!(duration("5."), Some(5_000));
    assert_eq!(duration("0012.30"), Some(12_300));
}

#[test]
fn what_is_no_number_is_no_duration() {
    for text in [
        "", ".", "+", "-", "+.", "e", "e5", "1e", "1e+", ".e1", "1.2.3", "1,5", "0x10", "1_000",
        " 1", "1 ", "--1", "+-1", "1e1.5", "1e1e1", "in", "infin", "infinit", "nano", "na", "1f",
        "inf1", "١",
    ] {
        assert_eq!(duration(text), None, "{text:?}");
        assert!(text.parse::<f64>().is_err(), "{text:?}");
    }
}

#[test]
fn a_number_may_be_negative_or_without_end() {
    let back = |thousandths: u64| Some(Seconds::Finite { negative: true, thousandths });
    assert_eq!(number("-1"), back(1_000));
    assert_eq!(number("-1.0005"), back(1_000));
    assert_eq!(number("-0"), back(0));
    assert_eq!(number("-inf"), Some(Seconds::Infinite { negative: true }));
    assert_eq!(number("inf"), Some(Seconds::Infinite { negative: false }));
    assert_eq!(number("+Infinity"), Some(Seconds::Infinite { negative: false }));
    assert_eq!(number("NaN"), Some(Seconds::NoNumber));
    assert_eq!(number("-nan"), Some(Seconds::NoNumber));
}

#[test]
fn more_than_can_be_counted_is_as_much_as_can() {
    assert_eq!(duration("1e20"), Some(u64::MAX));
    assert_eq!(duration("1e308"), Some(u64::MAX));
    assert_eq!(duration("17976931348623157e292"), Some(u64::MAX));
    assert_eq!(duration("1e-99999999999999999999999999999999999999999"), Some(0));
    assert_eq!(duration("0e99999999999999999999999999999999999999999"), Some(0));
}

/// The least number that double precision rounds to infinity, and one less.
#[test]
fn what_double_precision_cannot_hold_is_without_end() {
    let endless = Some(Seconds::Infinite { negative: false });
    let least = "179769313486231580793728971405303415079934132710037826936173778980444968292764750946649017977587207096330286416692887910946555547851940402630657488671505820681908902000708383676273854845817711531764475730270069855571366959622842914819860834936475292719074168444365510704342711559699508093042880177904174497792";
    let below = "179769313486231580793728971405303415079934132710037826936173778980444968292764750946649017977587207096330286416692887910946555547851940402630657488671505820681908902000708383676273854845817711531764475730270069855571366959622842914819860834936475292719074168444365510704342711559699508093042880177904174497791";
    for (text, infinite) in [
        (least.to_string(), true),
        (below.to_string(), false),
        (format!("{below}.999999"), false),
        (format!("0.{least}e309"), true),
        (format!("000{least}0000e-4"), true),
        (format!("{below}9999e-4"), false),
        ("1.7976931348623158e308".into(), false),
        ("1.7976931348623159e308".into(), true),
        ("1e309".into(), true),
        ("1e400".into(), true),
        ("1e99999999999999999999999999999999999999999".into(), true),
    ] {
        assert_eq!(text.parse::<f64>().unwrap().is_infinite(), infinite, "{text}");
        assert_eq!(number(&text) == endless, infinite, "{text}");
        let back = Some(Seconds::Infinite { negative: true });
        assert_eq!(number(&format!("-{text}")) == back, infinite, "{text}");
    }
}

#[test]
fn a_number_is_written_as_std_writes_it() {
    for text in [
        "10", "9.967", "-5", "-0.0001", "0", "-0", "inf", "-inf", "nan", "-nan", "1.0005", "-2.0625",
        "9007199254740993", "123456.7894",
    ] {
        let mut out = String::from("#");
        push(&mut out, number(text).unwrap());
        assert_eq!(out, format!("#{:.3}", text.parse::<f64>().unwrap()), "{text}");
        assert_eq!(number(&out[1..]), number(text), "{text}");
    }
}

#[test]
fn thousandths_are_those_of_the_double() {
    assert_eq!(duration("1.0005"), Some(1_000));
    assert_eq!(duration("1.0015"), Some(1_002));
    assert_eq!(duration("0.0005"), Some(1));
    assert_eq!(duration("0.00049999999999999999999"), Some(1));
    assert_eq!(duration("0.0004999"), Some(0));
    assert_eq!(duration("2.0625"), Some(2_062));
    assert_eq!(duration("2.1875"), Some(2_188));
    assert_eq!(duration("9007199254740993"), Some(9_007_199_254_740_992_000));
    assert_eq!(duration("9007199254740993.0001"), Some(9_007_199_254_740_994_000));
}

#[test]
fn every_number_comes_out_as_std_has_it() {
    let mut texts: Vec<String> = Vec::new();
    for whole in [
        "0", "1", "9", "10", "59", "4095", "4294967296", "4398046511103", "8796093022207",
        "8796093022208", "4503599627370495", "9007199254740991", "9007199254740992",
        "18014398509481983", "18446744073709551", "18446744073709552", "36028797018963968",
    ] {
        for fraction in [
            "", "0", "5", "0005", "001", "0015", "0625", "1875", "4995", "9995", "9999", "99951",
            "00050000000000000000000000001", "333333333333333333333333", "0004882812500000000001",
        ] {
            texts.push(format!("{whole}.{fraction}"));
            texts.push(format!("{whole}.{fraction}e-4"));
            texts.push(format!("000{whole}.{fraction}E3"));
            texts.push(format!("{whole}{fraction}e-12"));
        }
    }
    let mut seed: u64 = 0x2545_F491_4F6C_DD1D;
    for _ in 0..4_000 {
        seed ^= seed << 13;
        seed ^= seed >> 7;
        seed ^= seed << 17;
        let bits = f64::from_bits(((seed >> 12) & 0x7_FFFF_FFFF_FFFF) | ((1_005 + seed % 80) << 52));
        texts.push(format!("{bits}"));
        texts.push(format!("{bits:e}"));
        texts.push(format!("{:.4}", (seed % 1_000_000_000) as f64 / 10_000.0));
        texts.push(format!("{}.{:04}", seed % 100_000, (seed >> 20) % 10_000));
    }
    for text in texts {
        assert_eq!(duration(&text), by_double(&text), "{text}");
    }
}

#[test]
fn a_duration_that_was_read_is_read_back() {
    for text in [
        "0.0005", "9.967", "8796093022207.9995", "8796093022208.0017", "4503599627370495.4",
        "9007199254740993", "18014398509481987", "18446744073709550", "1e30", "1e308",
    ] {
        let read = duration(text).unwrap();
        let written = format!("{}.{:03}", read / 1000, read % 1000);
        assert_eq!(duration(&written), Some(read), "{text}");
    }
    assert_ne!(duration("9007199254740992.001"), Some(9_007_199_254_740_992_001));
}

#[test]
fn a_segment_may_have_any_number_for_its_length() {
    let base = "https://cdn.test/x/index.m3u8";
    let of = |line: &str| parse(base, &format!("#EXTM3U\n#EXTINF:{line}\na.ts\n"));
    let seconds = |negative: bool, thousandths: u64| Seconds::Finite { negative, thousandths };
    for (line, found) in [
        ("1e1,", seconds(false, 10_000)),
        ("+10,title", seconds(false, 10_000)),
        (" 1.0005 ,", seconds(false, 1_000)),
        ("-3,", seconds(true, 3_000)),
        ("nan", Seconds::NoNumber),
        ("inf,", Seconds::Infinite { negative: false }),
    ] {
        let list = of(line).unwrap();
        assert_eq!(list.segments.len(), 1, "{line}");
        assert_eq!(list.segments[0].duration, found, "{line}");
    }
    assert!(of("ten,").is_err());
    assert!(of(",10").is_err());
}

#[test]
fn an_odd_duration_is_written_and_read_again() {
    let base = "https://cdn.test/x/index.m3u8";
    let list = parse(base, "#EXTM3U\n#EXTINF:1e13,\na.ts\n#EXTINF:inf,\nb.ts\n").unwrap();
    assert_eq!(parse(base, &list.render_from(0)).unwrap(), list);
}
