//! The time, written the way this machine writes it.
//!
//! A platform is asked for its pattern rather than for a formatted string. The
//! two grammars in play, `h:mm tt` on Windows and ICU's `h:mm a`, overlap
//! enough that one walker reads both.

use crate::moment;
use crate::moment::Moment;
use crate::text;
use vstd::prelude::*;
use vstd::slice::*;
use vstd::string::*;

verus! {

/// A short time format, as the platform describes it.
#[derive(Debug, Clone, PartialEq, Eq)]
pub struct Pattern {
    /// The field pattern: `h:mm tt`, `HH:mm`, `h:mm a`.
    pub pattern: String,
    /// The two day-period designators, in the user's language.
    pub am: String,
    pub pm: String,
}

/// What everything falls back to.
pub const TWENTY_FOUR_HOUR: &'static str = "HH:mm";

/// An ASCII letter.
pub open spec fn is_letter(c: char) -> bool {
    text::is_upper(c) || text::is_lower(c)
}

/// How many of the character at its front a text begins with.
pub open spec fn run(s: Seq<char>, c: char) -> int
    decreases s.len(),
{
    if s.len() > 0 && s[0] == c {
        1 + run(s.drop_first(), c)
    } else {
        0
    }
}

/// An hour on a clock of twelve.
pub open spec fn on_twelve(hour: nat) -> nat {
    if hour % 12 == 0 {
        12
    } else {
        hour % 12
    }
}

/// A number, with a zero before a single digit where it is padded.
pub open spec fn number_text(value: nat, padded: bool) -> Seq<char> {
    if padded {
        text::two_digits(value)
    } else {
        text::decimal(value)
    }
}

/// A time of day.
pub struct TimeOfDay {
    pub hour: nat,
    pub minute: nat,
    pub second: nat,
}

impl Pattern {
    /// The designator of an hour.
    pub open spec fn period(self, hour: nat) -> Seq<char> {
        if hour < 12 {
            self.am@
        } else {
            self.pm@
        }
    }

    /// What a field stands for: `n` times the letter `c`.
    pub open spec fn field(self, c: char, n: int, at: TimeOfDay) -> Seq<char> {
        let padded = n >= 2;
        if c == 'h' {
            number_text(on_twelve(at.hour), padded)
        } else if c == 'H' {
            number_text(at.hour, padded)
        } else if c == 'K' {
            number_text(at.hour % 12, padded)
        } else if c == 'k' {
            number_text(
                if at.hour == 0 {
                    24
                } else {
                    at.hour
                },
                padded,
            )
        } else if c == 'm' {
            number_text(at.minute, padded)
        } else if c == 's' {
            number_text(at.second, padded)
        } else if c == 'a' || (c == 't' && padded) {
            self.period(at.hour)
        } else if c == 't' {
            if self.period(at.hour).len() > 0 {
                self.period(at.hour).take(1)
            } else {
                Seq::empty()
            }
        } else {
            Seq::new(n as nat, |i: int| c)
        }
    }

    /// What a pattern writes for a time. Anything in single quotes is literal,
    /// two of them are one quote, and any character that is no letter stands
    /// for itself.
    pub open spec fn written(self, s: Seq<char>, at: TimeOfDay) -> Seq<char>
        decreases s.len(),
    {
        if s.len() == 0 {
            Seq::empty()
        } else if s[0] == '\'' {
            if s.len() > 1 && s[1] == '\'' {
                seq!['\''] + self.written(s.skip(2), at)
            } else {
                proof {
                    text::lemma_first(s.drop_first(), '\'');
                }
                text::head(s.drop_first(), '\'') + self.written(
                    text::tail(s.drop_first(), '\''),
                    at,
                )
            }
        } else if !is_letter(s[0]) {
            seq![s[0]] + self.written(s.drop_first(), at)
        } else {
            proof {
                lemma_run(s, s[0]);
            }
            self.field(s[0], run(s, s[0]), at) + self.written(s.skip(run(s, s[0])), at)
        }
    }

    pub fn new(pattern: &str, am: &str, pm: &str) -> (r: Pattern)
        ensures
            r.pattern@ == pattern@,
            r.am@ == am@,
            r.pm@ == pm@,
    {
        Pattern { pattern: pattern.to_string(), am: am.to_string(), pm: pm.to_string() }
    }

    pub fn twenty_four_hour() -> (r: Pattern)
        ensures
            r.pattern@ == "HH:mm"@,
            r.am@ == "AM"@,
            r.pm@ == "PM"@,
    {
        Pattern::new(TWENTY_FOUR_HOUR, "AM", "PM")
    }

    /// Render one time of day.
    ///
    /// Fields, from both grammars: `h`/`hh` twelve-hour, `H`/`HH` twenty-four,
    /// `K`/`k` ICU's zero- and one-based variants, `m`/`mm` minutes, `s`/`ss`
    /// seconds, `t`/`tt` Windows' one- and two-character day period, `a` ICU's.
    /// A letter that is none of them is left in place.
    pub fn render(&self, hour: u32, minute: u32, second: u32) -> (r: String)
        ensures
            r@ == self.written(
                self.pattern@,
                TimeOfDay { hour: hour as nat, minute: minute as nat, second: second as nat },
            ),
    {
        let ghost at = TimeOfDay {
            hour: hour as nat,
            minute: minute as nat,
            second: second as nat,
        };
        let mut out = String::new();
        let chars = text::chars_of(self.pattern.as_str());
        let n: usize = chars.len();
        let mut i: usize = 0;
        assert(chars@.skip(0) =~= chars@);
        assert(out@ + self.written(chars@, at) =~= self.written(chars@, at));
        while i < n
            invariant
                i <= n,
                n == chars@.len(),
                at.hour == hour && at.minute == minute && at.second == second,
                out@ + self.written(chars@.skip(i as int), at) == self.written(chars@, at),
            decreases n - i,
        {
            let ghost s = chars@.skip(i as int);
            let ghost held = out@;
            let c = chars[i];
            assert(s[0] == c);
            if c == '\'' {
                if i + 1 < n && chars[i + 1] == '\'' {
                    assert(s[1] == '\'');
                    out.push('\'');
                    assert(s.skip(2) =~= chars@.skip(i + 2));
                    assert(held + (seq!['\''] + self.written(s.skip(2), at)) =~= out@
                        + self.written(s.skip(2), at));
                    i += 2;
                } else {
                    let rest = slice_subrange(chars.as_slice(), i + 1, n);
                    assert(rest@ =~= s.drop_first());
                    let quoted = text::before(rest, '\'');
                    let size: usize = quoted.len();
                    let literal = text::string_of(quoted);
                    out.append(literal.as_str());
                    proof {
                        text::lemma_first(rest@, '\'');
                        let after = text::tail(rest@, '\'');
                        assert(held + (text::head(rest@, '\'') + self.written(after, at)) =~= out@
                            + self.written(after, at));
                        if size < rest@.len() {
                            assert(after =~= chars@.skip(i + 1 + size + 1));
                        } else {
                            assert(after =~= chars@.skip(n as int));
                        }
                    }
                    let left: usize = rest.len();
                    if size < left {
                        i = i + 1 + size + 1;
                    } else {
                        i = n;
                    }
                }
            } else if !letter(c) {
                out.push(c);
                assert(s.drop_first() =~= chars@.skip(i + 1));
                assert(held + (seq![c] + self.written(s.drop_first(), at)) =~= out@
                    + self.written(s.drop_first(), at));
                i += 1;
            } else {
                let rest = slice_subrange(chars.as_slice(), i, n);
                assert(rest@ =~= s);
                let size: usize = run_of(rest, c);
                self.push_field(&mut out, c, size, hour, minute, second);
                proof {
                    let k = size as int;
                    assert(s.skip(k) =~= chars@.skip(i + k));
                    assert(held + (self.field(c, k, at) + self.written(s.skip(k), at)) =~= out@
                        + self.written(s.skip(k), at));
                }
                i += size;
            }
        }
        assert(chars@.skip(i as int) =~= Seq::empty());
        assert(out@ =~= self.written(chars@, at));
        out
    }

    fn push_field(
        &self,
        out: &mut String,
        c: char,
        size: usize,
        hour: u32,
        minute: u32,
        second: u32,
    )
        requires
            size > 0,
        ensures
            final(out)@ == old(out)@ + self.field(
                c,
                size as int,
                TimeOfDay { hour: hour as nat, minute: minute as nat, second: second as nat },
            ),
    {
        let padded = size >= 2;
        let period: &String = if hour < 12 {
            &self.am
        } else {
            &self.pm
        };
        match c {
            'h' => push_number(out, twelve_hour(hour), padded),
            'H' => push_number(out, hour, padded),
            'K' => push_number(out, hour % 12, padded),
            'k' => push_number(
                out,
                if hour == 0 {
                    24
                } else {
                    hour
                },
                padded,
            ),
            'm' => push_number(out, minute, padded),
            's' => push_number(out, second, padded),
            'a' => out.append(period.as_str()),
            't' => {
                if padded {
                    out.append(period.as_str());
                } else {
                    let letters = text::chars_of(period.as_str());
                    if letters.len() > 0 {
                        out.push(letters[0]);
                        assert(out@ =~= old(out)@ + letters@.take(1));
                    } else {
                        assert(out@ =~= old(out)@ + Seq::empty());
                    }
                }
            },
            _ => push_repeated(out, c, size),
        }
    }
}

fn letter(c: char) -> (r: bool)
    ensures
        r == is_letter(c),
{
    let n: u32 = c as u32;
    (65 <= n && n <= 90) || (97 <= n && n <= 122)
}

/// A run is part of its text, and is not empty where it has begun.
pub proof fn lemma_run(s: Seq<char>, c: char)
    ensures
        0 <= run(s, c) <= s.len(),
        s.len() > 0 && s[0] == c ==> run(s, c) > 0,
        forall|k: int| 0 <= k < run(s, c) ==> s[k] == c,
    decreases s.len(),
{
    if s.len() > 0 && s[0] == c {
        let t = s.drop_first();
        lemma_run(t, c);
        assert forall|k: int| 0 <= k < run(s, c) implies s[k] == c by {
            if k > 0 {
                assert(t[k - 1] == c);
            }
        }
    }
}

fn run_of(s: &[char], c: char) -> (r: usize)
    ensures
        r == run(s@, c),
        r <= s@.len(),
        s@.len() > 0 && s@[0] == c ==> r > 0,
{
    let n: usize = s.len();
    let mut i: usize = 0;
    assert(s@.skip(0) =~= s@);
    proof {
        lemma_run(s@, c);
    }
    while i < n && s[i] == c
        invariant
            i <= n,
            n == s@.len(),
            i + run(s@.skip(i as int), c) == run(s@, c),
        decreases n - i,
    {
        assert(s@.skip(i as int)[0] == s@[i as int]);
        assert(s@.skip(i as int).drop_first() =~= s@.skip(i + 1));
        i += 1;
    }
    proof {
        if i < n {
            assert(s@.skip(i as int)[0] == s@[i as int]);
        }
    }
    i
}

pub fn twelve_hour(hour: u32) -> (r: u32)
    ensures
        r == on_twelve(hour as nat),
{
    if hour % 12 == 0 {
        12
    } else {
        hour % 12
    }
}

pub fn push_number(out: &mut String, value: u32, padded: bool)
    ensures
        final(out)@ == old(out)@ + number_text(value as nat, padded),
{
    if padded {
        text::push_two_digits(out, value as u64);
    } else {
        text::push_decimal(out, value as u64);
    }
}

fn push_repeated(out: &mut String, c: char, n: usize)
    ensures
        final(out)@ == old(out)@ + Seq::new(n as nat, |i: int| c),
{
    let ghost held = out@;
    let mut i: usize = 0;
    assert(out@ =~= held + Seq::new(0, |k: int| c));
    while i < n
        invariant
            i <= n,
            out@ == held + Seq::new(i as nat, |k: int| c),
        decreases n - i,
    {
        out.push(c);
        i += 1;
        assert(out@ =~= held + Seq::new(i as nat, |k: int| c));
    }
}

// ── The machine's pattern ────────────────────────────────────────────

/// The pattern to use: the one the platform describes, or the fallback.
pub fn system(platform: Option<Pattern>) -> (r: Pattern)
    ensures
        platform matches Some(pattern) ==> r == pattern,
        platform is None ==> r.pattern@ == "HH:mm"@ && r.am@ == "AM"@ && r.pm@ == "PM"@,
{
    match platform {
        Some(pattern) => pattern,
        None => Pattern::twenty_four_hour(),
    }
}

/// The territories whose clocks say AM and PM.
pub open spec fn is_twelve_hour(territory: Seq<char>) -> bool {
    ||| territory == "en_US"@
    ||| territory == "en_CA"@
    ||| territory == "en_AU"@
    ||| territory == "en_NZ"@
    ||| territory == "en_IN"@
    ||| territory == "en_PH"@
    ||| territory == "es_US"@
    ||| territory == "hi_IN"@
}

/// The first of the values that is there and not empty.
pub open spec fn first_set(values: Seq<Option<String>>) -> Option<Seq<char>>
    decreases values.len(),
{
    if values.len() == 0 {
        None
    } else if values[0] is Some && values[0]->0@.len() > 0 {
        Some(values[0]->0@)
    } else {
        first_set(values.drop_first())
    }
}

/// The territory that a locale names: what stands before the encoding and
/// before the modifier.
pub open spec fn territory(locale: Seq<char>) -> Seq<char> {
    text::head(text::head(locale, '.'), '@')
}

/// The pattern that the locale environment describes. The values are those of
/// `LC_ALL`, `LC_TIME` and `LANG`, in this order: the first that is set names
/// the territory. No territory but those few says AM and PM.
pub fn pattern(values: &[Option<String>]) -> (r: Option<Pattern>)
    ensures
        r is Some <==> (first_set(values@) matches Some(locale) && is_twelve_hour(
            territory(locale),
        )),
        r matches Some(p) ==> p.pattern@ == "h:mm tt"@ && p.am@ == "AM"@ && p.pm@ == "PM"@,
{
    let mut i: usize = 0;
    assert(values@.skip(0) =~= values@);
    while i < values.len()
        invariant
            i <= values@.len(),
            first_set(values@.skip(i as int)) == first_set(values@),
        decreases values.len() - i,
    {
        assert(values@.skip(i as int)[0] == values@[i as int]);
        assert(values@.skip(i as int).drop_first() =~= values@.skip(i + 1));
        match &values[i] {
            Some(locale) => {
                let chars = text::chars_of(locale.as_str());
                if chars.len() > 0 {
                    let plain = text::before(chars.as_slice(), '.');
                    let named = text::before(plain, '@');
                    if text::spells(named, "en_US") || text::spells(named, "en_CA") || text::spells(
                        named,
                        "en_AU",
                    ) || text::spells(named, "en_NZ") || text::spells(named, "en_IN")
                        || text::spells(named, "en_PH") || text::spells(named, "es_US")
                        || text::spells(named, "hi_IN") {
                        return Some(
                            Pattern::new("h:mm tt", "AM", "PM"),
                        );
                    }
                    return None;
                }
            },
            None => {},
        }
        i += 1;
    }
    None
}

/// A moment, as a short time in a pattern. Which time of day the moment is
/// where this machine is depends on the machine.
pub fn stamp(moment: Moment, pattern: &Pattern) -> (r: String)
    requires
        moment.representable(),
    ensures
        exists|at: TimeOfDay|
            at.hour < 24 && at.minute < 60 && at.second < 60 && r@ == #[trigger] pattern.written(
                pattern.pattern@,
                at,
            ),
{
    let (hour, minute, second) = moment::local_time(moment);
    pattern.render(hour, minute, second)
}

/// Whether a letter stands for a part of the time.
pub open spec fn is_field(c: char) -> bool {
    c == 'h' || c == 'H' || c == 'K' || c == 'k' || c == 'm' || c == 's' || c == 'a' || c == 't'
}

/// Any character that is no field and no quote stands for itself, letter or
/// not, at any time of day.
pub proof fn law_what_is_no_field_is_kept(pattern: Pattern, s: Seq<char>, at: TimeOfDay)
    requires
        forall|i: int| 0 <= i < s.len() ==> !is_field(#[trigger] s[i]) && s[i] != '\'',
    ensures
        pattern.written(s, at) == s,
    decreases s.len(),
{
    if s.len() > 0 {
        assert(!is_field(s[0]));
        if is_letter(s[0]) {
            let n = run(s, s[0]);
            lemma_run(s, s[0]);
            law_what_is_no_field_is_kept(pattern, s.skip(n), at);
            assert(pattern.field(s[0], n, at) + s.skip(n) =~= s);
        } else {
            law_what_is_no_field_is_kept(pattern, s.drop_first(), at);
            assert(seq![s[0]] + s.drop_first() =~= s);
        }
    } else {
        assert(s =~= Seq::empty());
    }
}

/// What stands between single quotes is written as it stands, letters and all.
pub proof fn law_quoted_text_is_literal(pattern: Pattern, s: Seq<char>, at: TimeOfDay)
    requires
        s.len() > 0,
        !s.contains('\''),
    ensures
        pattern.written(seq!['\''] + s + seq!['\''], at) == s,
{
    let all = seq!['\''] + s + seq!['\''];
    let rest = all.drop_first();
    assert(all[1] == s[0]);
    assert(s[0] != '\'') by {
        if s[0] == '\'' {
            assert(s.contains('\''));
        }
    }
    assert forall|k: int| 0 <= k < s.len() implies rest[k] != '\'' by {
        assert(rest[k] == s[k]);
        if s[k] == '\'' {
            assert(s.contains('\''));
        }
    }
    text::lemma_first_is(rest, '\'', s.len() as int);
    assert(text::head(rest, '\'') =~= s);
    assert(text::tail(rest, '\'') =~= Seq::empty());
    assert(pattern.written(Seq::empty(), at) =~= Seq::empty());
    assert(s + Seq::empty() =~= s);
}

/// A pattern is written field by field: so many of one letter are one field, and
/// what stands behind them is written behind it.
pub proof fn law_a_pattern_is_written_field_by_field(
    pattern: Pattern,
    c: char,
    n: nat,
    rest: Seq<char>,
    at: TimeOfDay,
)
    requires
        is_letter(c),
        n > 0,
        rest.len() > 0 ==> rest[0] != c,
    ensures
        pattern.written(Seq::new(n, |i: int| c) + rest, at) == pattern.field(c, n as int, at)
            + pattern.written(rest, at),
{
    let s = Seq::new(n, |i: int| c) + rest;
    lemma_run_is(n, rest, c);
    assert(s[0] == c);
    assert(s.skip(n as int) =~= rest);
}

proof fn lemma_run_is(n: nat, rest: Seq<char>, c: char)
    requires
        rest.len() > 0 ==> rest[0] != c,
    ensures
        run(Seq::new(n, |i: int| c) + rest, c) == n,
    decreases n,
{
    let s = Seq::new(n, |i: int| c) + rest;
    if n > 0 {
        let less = (n - 1) as nat;
        lemma_run_is(less, rest, c);
        assert(s.drop_first() =~= Seq::new(less, |i: int| c) + rest);
    } else {
        assert(s =~= rest);
    }
}

/// What each field says of a time. An hour on a clock of twelve is one of
/// twelve, and the same hour; the day has its two halves; and a field of two
/// letters has two places.
pub proof fn law_a_field_says_its_part_of_the_time(pattern: Pattern, at: TimeOfDay)
    requires
        at.hour < 24,
        at.minute < 60,
        at.second < 60,
    ensures
        1 <= on_twelve(at.hour) <= 12,
        (on_twelve(at.hour) as int - at.hour as int) % 12 == 0,
        pattern.field('h', 1, at) == text::decimal(on_twelve(at.hour)),
        pattern.field('h', 2, at) == text::two_digits(on_twelve(at.hour)),
        pattern.field('H', 1, at) == text::decimal(at.hour),
        pattern.field('H', 2, at) == text::two_digits(at.hour),
        pattern.field('K', 1, at) == text::decimal(at.hour % 12),
        at.hour > 0 ==> pattern.field('k', 1, at) == text::decimal(at.hour),
        at.hour == 0 ==> pattern.field('k', 1, at) == text::decimal(24),
        pattern.field('m', 1, at) == text::decimal(at.minute),
        pattern.field('m', 2, at) == text::two_digits(at.minute),
        pattern.field('s', 2, at) == text::two_digits(at.second),
        at.hour < 12 ==> pattern.field('a', 1, at) == pattern.am@ && pattern.field('t', 2, at)
            == pattern.am@,
        at.hour >= 12 ==> pattern.field('a', 1, at) == pattern.pm@ && pattern.field('t', 2, at)
            == pattern.pm@,
        at.hour < 12 && pattern.am@.len() > 0 ==> pattern.field('t', 1, at) == seq![pattern.am@[0]],
        at.hour >= 12 && pattern.pm@.len() > 0 ==> pattern.field('t', 1, at) == seq![pattern.pm@[0]],
{
    if pattern.am@.len() > 0 {
        assert(pattern.am@.take(1) =~= seq![pattern.am@[0]]);
    }
    if pattern.pm@.len() > 0 {
        assert(pattern.pm@.take(1) =~= seq![pattern.pm@[0]]);
    }
}

/// The two patterns there are of the library's own: the twenty-four hours, and
/// the twelve with their half of the day.
pub proof fn law_the_usual_patterns_read_as_usual(pattern: Pattern, at: TimeOfDay)
    requires
        at.hour < 24,
        at.minute < 60,
        at.second < 60,
    ensures
        pattern.written("HH:mm"@, at) == text::two_digits(at.hour) + ":"@ + text::two_digits(
            at.minute,
        ),
        pattern.written("h:mm tt"@, at) == text::decimal(on_twelve(at.hour)) + ":"@
            + text::two_digits(at.minute) + " "@ + (if at.hour < 12 {
            pattern.am@
        } else {
            pattern.pm@
        }),
{
    reveal_strlit("HH:mm");
    reveal_strlit("h:mm tt");
    reveal_strlit(":");
    reveal_strlit(" ");
    law_a_field_says_its_part_of_the_time(pattern, at);
    let none = Seq::<char>::empty();
    let tt = Seq::new(2, |i: int| 't');
    let mm = Seq::new(2, |i: int| 'm');
    let hh = Seq::new(2, |i: int| 'H');
    let h = Seq::new(1, |i: int| 'h');
    assert(pattern.written(none, at) =~= none);
    // The twenty-four hours.
    law_a_pattern_is_written_field_by_field(pattern, 'm', 2, none, at);
    let minutes = seq![':'] + (mm + none);
    assert(minutes.drop_first() =~= mm + none);
    law_a_pattern_is_written_field_by_field(pattern, 'H', 2, minutes, at);
    assert("HH:mm"@ =~= hh + minutes);
    assert(pattern.written("HH:mm"@, at) =~= text::two_digits(at.hour) + ":"@ + text::two_digits(
        at.minute,
    ));
    // The twelve.
    law_a_pattern_is_written_field_by_field(pattern, 't', 2, none, at);
    let half = seq![' '] + (tt + none);
    assert(half.drop_first() =~= tt + none);
    law_a_pattern_is_written_field_by_field(pattern, 'm', 2, half, at);
    let rest = seq![':'] + (mm + half);
    assert(rest.drop_first() =~= mm + half);
    law_a_pattern_is_written_field_by_field(pattern, 'h', 1, rest, at);
    assert("h:mm tt"@ =~= h + rest);
    assert(pattern.written("h:mm tt"@, at) =~= text::decimal(on_twelve(at.hour)) + ":"@
        + text::two_digits(at.minute) + " "@ + (if at.hour < 12 {
        pattern.am@
    } else {
        pattern.pm@
    }));
}

/// A locale names its territory, with or without an encoding or a modifier
/// behind it; and the first value that is set is the one that counts.
pub proof fn law_a_locale_names_its_territory(
    name: Seq<char>,
    behind: Seq<char>,
    first: Option<String>,
    rest: Seq<Option<String>>,
)
    requires
        !name.contains('.'),
        !name.contains('@'),
    ensures
        territory(name) == name,
        territory(name + seq!['.'] + behind) == name,
        territory(name + seq!['@'] + behind) == name,
        first matches Some(value) ==> (value@.len() > 0 ==> first_set(seq![first] + rest) == Some(
            value@,
        )),
        first is None || first->0@.len() == 0 ==> first_set(seq![first] + rest) == first_set(rest),
{
    let n = name.len() as int;
    let dotted = name + seq!['.'] + behind;
    let marked = name + seq!['@'] + behind;
    assert forall|k: int| 0 <= k < n implies name[k] != '.' && name[k] != '@' by {
        assert(name.contains(name[k]));
    }
    text::lemma_first_is(name, '.', n);
    text::lemma_first_is(name, '@', n);
    assert(text::head(name, '.') =~= name);
    assert(text::head(name, '@') =~= name);
    text::lemma_first_is(dotted, '.', n);
    assert(text::head(dotted, '.') =~= name);
    let plain = text::head(marked, '.');
    text::lemma_first(marked, '.');
    assert(text::first(marked, '.') > n) by {
        if text::first(marked, '.') <= n {
            assert(marked[text::first(marked, '.')] == '.');
        }
    }
    assert(plain[n] == '@');
    text::lemma_first_is(plain, '@', n);
    assert(text::head(plain, '@') =~= name);
    assert((seq![first] + rest).drop_first() =~= rest);
}

/// The territories that tell the time by halves of the day, and no others.
pub proof fn law_eight_territories_count_to_twelve(territory: Seq<char>)
    ensures
        seq![
            "en_US"@,
            "en_CA"@,
            "en_AU"@,
            "en_NZ"@,
            "en_IN"@,
            "en_PH"@,
            "es_US"@,
            "hi_IN"@,
        ].contains(territory) <==> is_twelve_hour(territory),
{
    let all = seq![
        "en_US"@,
        "en_CA"@,
        "en_AU"@,
        "en_NZ"@,
        "en_IN"@,
        "en_PH"@,
        "es_US"@,
        "hi_IN"@,
    ];
    assert(all[0] == "en_US"@ && all[1] == "en_CA"@ && all[2] == "en_AU"@ && all[3] == "en_NZ"@
        && all[4] == "en_IN"@ && all[5] == "en_PH"@ && all[6] == "es_US"@ && all[7] == "hi_IN"@);
}

} // verus!
