//! A channel's past broadcasts: how long one is, when it was, and whether it
//! is still being recorded.

use crate::browse;
use crate::helix::Video;
use crate::moment;
use crate::moment::{Day, Moment};
use crate::text;
use vstd::prelude::*;
use vstd::string::*;

verus! {

/// How long after a broadcast's listed end it may still be going.
///
/// Twitch does not say whether a recording is still being made. Its
/// placeholder picture says so while it lasts, and this covers the gap after
/// it: a recording whose listed end is this close to now was still growing
/// when the list was fetched.
pub const STILL_GOING_SECS: i64 = 600;

// ── Lengths ──────────────────────────────────────────────────────────

/// "5h 58m", "58m", or "45s".
pub open spec fn long(secs: nat) -> Seq<char> {
    if secs >= 60 {
        browse::span(secs)
    } else {
        text::decimal(secs) + "s"@
    }
}

pub fn length(secs: u64) -> (r: String)
    ensures
        r@ == long(secs as nat),
{
    let mut out = String::new();
    if secs >= 60 {
        browse::push_span(&mut out, secs as u128);
    } else {
        text::push_decimal(&mut out, secs);
        out.append("s");
    }
    assert(out@ =~= long(secs as nat));
    out
}

// ── Whether it is still going ────────────────────────────────────────

/// Whether `video` is a broadcast that is still being recorded, as best the
/// list can tell: Twitch shows its placeholder for it, or it is listed as
/// having ended no more than ten minutes ago.
pub open spec fn going(video: Video, now: Moment) -> bool {
    ||| text::occurs(video.thumbnail_url@, "404_processing"@)
    ||| match moment::named(video.created_at@) {
        Some(started) => {
            let end = started.secs + video.length_secs + STILL_GOING_SECS;
            now.secs < end || (now.secs == end && now.nanos <= started.nanos % 1_000_000_000)
        },
        None => false,
    }
}

pub fn in_progress(video: &Video, now: &Moment) -> (r: bool)
    ensures
        r == going(*video, *now),
{
    let url = text::chars_of(video.thumbnail_url.as_str());
    let mark = text::chars_of("404_processing");
    if text::occurs_in(url.as_slice(), mark.as_slice()) {
        return true;
    }
    match moment::parse(video.created_at.as_str()) {
        Some(started) => {
            let end: i128 = started.secs as i128 + video.length_secs as i128
                + STILL_GOING_SECS as i128;
            (now.secs as i128) < end || (now.secs as i128 == end && now.nanos <= started.nanos
                % 1_000_000_000)
        },
        None => false,
    }
}

/// How many milliseconds a broadcast still being recorded is long at a moment:
/// the time since it started.
pub open spec fn elapsed(video: Video, now: Moment) -> Option<nat> {
    match moment::named(video.created_at@) {
        Some(started) => Some(now.millis_since(started)),
        None => None,
    }
}

/// How long a broadcast still being recorded is now, in milliseconds. `None`
/// for a video whose start Twitch did not say.
pub fn elapsed_millis(video: &Video, now: &Moment) -> (r: Option<u128>)
    ensures
        match r {
            Some(millis) => elapsed(*video, *now) == Some(millis as nat),
            None => elapsed(*video, *now) is None,
        },
{
    match moment::parse(video.created_at.as_str()) {
        Some(started) => Some(now.whole_millis_since(&started)),
        None => None,
    }
}

/// The corner of a recording's card: how long it is, or how long it has been
/// so far.
pub open spec fn corner_text(video: Video, now: Moment) -> Seq<char> {
    match elapsed(video, now) {
        Some(millis) if going(video, now) => long(millis / 1000) + " so far"@,
        _ => long(video.length_secs as nat),
    }
}

pub fn corner(video: &Video, now: &Moment) -> (r: String)
    requires
        now.representable(),
    ensures
        r@ == corner_text(*video, *now),
{
    if in_progress(video, now) {
        match moment::parse(video.created_at.as_str()) {
            Some(started) => {
                let millis: u128 = now.whole_millis_since(&started);
                let mut out = length((millis / 1000) as u64);
                out.append(" so far");
                return out;
            },
            None => {},
        }
    }
    length(video.length_secs)
}

// ── When it was ──────────────────────────────────────────────────────

/// The name of a month, in three letters.
pub open spec fn month_name(month: nat) -> Seq<char> {
    if month == 1 {
        "Jan"@
    } else if month == 2 {
        "Feb"@
    } else if month == 3 {
        "Mar"@
    } else if month == 4 {
        "Apr"@
    } else if month == 5 {
        "May"@
    } else if month == 6 {
        "Jun"@
    } else if month == 7 {
        "Jul"@
    } else if month == 8 {
        "Aug"@
    } else if month == 9 {
        "Sep"@
    } else if month == 10 {
        "Oct"@
    } else if month == 11 {
        "Nov"@
    } else {
        "Dec"@
    }
}

fn month_of(month: u32) -> (r: &'static str)
    ensures
        r@ == month_name(month as nat),
{
    match month {
        1 => "Jan",
        2 => "Feb",
        3 => "Mar",
        4 => "Apr",
        5 => "May",
        6 => "Jun",
        7 => "Jul",
        8 => "Aug",
        9 => "Sep",
        10 => "Oct",
        11 => "Nov",
        _ => "Dec",
    }
}

/// `n` in decimal, with zeros before it up to four digits.
pub open spec fn four_digits(n: nat) -> Seq<char> {
    if n < 10 {
        "000"@ + text::decimal(n)
    } else if n < 100 {
        "00"@ + text::decimal(n)
    } else if n < 1000 {
        "0"@ + text::decimal(n)
    } else {
        text::decimal(n)
    }
}

/// A year as ISO 8601 writes it: four digits, and with a sign outside the
/// years that have four.
pub open spec fn year_text(year: int) -> Seq<char> {
    if year < 0 {
        "-"@ + four_digits((-year) as nat)
    } else if year > 9999 {
        "+"@ + four_digits(year as nat)
    } else {
        four_digits(year as nat)
    }
}

fn push_year(out: &mut String, year: i32)
    ensures
        final(out)@ == old(out)@ + year_text(year as int),
{
    let size: u64 = if year < 0 {
        out.append("-");
        (-(year as i64)) as u64
    } else {
        if year > 9999 {
            out.append("+");
        }
        year as u64
    };
    if size < 10 {
        out.append("000");
    } else if size < 100 {
        out.append("00");
    } else if size < 1000 {
        out.append("0");
    }
    text::push_decimal(out, size);
    assert(out@ =~= old(out)@ + year_text(year as int));
}

/// When a broadcast was, as somebody who scans a list thinks of it: by days
/// and weeks at first, then by the date, with the year once it is another.
pub open spec fn when_text(started: Day, today: Day) -> Seq<char> {
    let days = today.number - started.number;
    let date = text::decimal(started.day as nat) + " "@ + month_name(started.month as nat);
    if days <= 0 {
        "today"@
    } else if days == 1 {
        "yesterday"@
    } else if days <= 6 {
        text::decimal(days as nat) + " days ago"@
    } else if days <= 13 {
        "last week"@
    } else if days <= 27 {
        text::decimal((days / 7) as nat) + " weeks ago"@
    } else if started.year == today.year {
        date
    } else {
        date + " "@ + year_text(started.year as int)
    }
}

/// When a broadcast was that started on one day, seen from another.
pub fn when_on(started: &Day, today: &Day) -> (r: String)
    ensures
        r@ == when_text(*started, *today),
{
    let days: i64 = today.number as i64 - started.number as i64;
    let mut out = String::new();
    if days <= 0 {
        out.append("today");
    } else if days == 1 {
        out.append("yesterday");
    } else if days <= 6 {
        text::push_decimal(&mut out, days as u64);
        out.append(" days ago");
    } else if days <= 13 {
        out.append("last week");
    } else if days <= 27 {
        text::push_decimal(&mut out, (days / 7) as u64);
        out.append(" weeks ago");
    } else {
        text::push_decimal(&mut out, started.day as u64);
        out.append(" ");
        out.append(month_of(started.month));
        if started.year != today.year {
            out.append(" ");
            push_year(&mut out, started.year);
        }
    }
    assert(out@ =~= when_text(*started, *today));
    out
}

/// Whether `shown` can be said of when something was: it is what
/// [`when_text`] makes of the days that the two moments may fall on where the
/// machine is, and nothing where the text names no moment.
pub open spec fn may_say(created_at: Seq<char>, now: Moment, shown: Option<Seq<char>>) -> bool {
    match moment::named(created_at) {
        Some(started) => exists|from: Day, today: Day|
            from.sound() && today.sound() && moment::may_be_day(from.number as int, started)
                && moment::may_be_day(today.number as int, now) && shown == Some(
                #[trigger] when_text(from, today),
            ),
        None => shown is None,
    }
}

/// A text that may not be there, as it reads.
pub open spec fn read_text(text: Option<String>) -> Option<Seq<char>> {
    match text {
        Some(text) => Some(text@),
        None => None,
    }
}

/// When a broadcast was, by the local calendar.
pub fn when(created_at: &str, now: &Moment) -> (r: Option<String>)
    requires
        now.datable(),
    ensures
        may_say(created_at@, *now, read_text(r)),
        r is Some <==> moment::named(created_at@) is Some,
{
    match moment::parse(created_at) {
        Some(started) => {
            let from = moment::local_day(started);
            let today = moment::local_day(*now);
            let shown = when_on(&from, &today);
            assert(shown@ == when_text(from, today));
            Some(shown)
        },
        None => None,
    }
}

// ── The line under a title ───────────────────────────────────────────

/// The line under a recording's title: when it was and how long it is, or how
/// long it has been so far.
pub open spec fn described(video: Video, now: Moment, shown: Option<Seq<char>>) -> Seq<char> {
    if going(video, now) {
        "streaming now · "@ + corner_text(video, now)
    } else {
        match shown {
            Some(shown) => shown + " · "@ + corner_text(video, now),
            None => corner_text(video, now),
        }
    }
}

/// [`describe`], given what is said of when the recording was made.
pub fn describe_from(video: &Video, now: &Moment, shown: &Option<String>) -> (r: String)
    requires
        now.representable(),
    ensures
        r@ == described(*video, *now, read_text(*shown)),
{
    let length = corner(video, now);
    let mut out = String::new();
    if in_progress(video, now) {
        out.append("streaming now · ");
    } else {
        match shown {
            Some(shown) => {
                out.append(shown.as_str());
                out.append(" · ");
            },
            None => {},
        }
    }
    out.append(length.as_str());
    assert(out@ =~= described(*video, *now, read_text(*shown)));
    out
}

pub fn describe(video: &Video, now: &Moment) -> (r: String)
    requires
        now.datable(),
    ensures
        exists|shown: Option<Seq<char>>|
            may_say(video.created_at@, *now, shown) && r@ == #[trigger] described(
                *video,
                *now,
                shown,
            ),
{
    let shown = when(video.created_at.as_str(), now);
    describe_from(video, now, &shown)
}

/// The line under the title of a recording's card: when it was, and how many
/// have seen it.
pub open spec fn card_text(video: Video, shown: Option<Seq<char>>) -> Seq<char> {
    let views = browse::viewers(video.view_count as nat) + " views"@;
    match shown {
        Some(shown) => shown + " · "@ + views,
        None => views,
    }
}

pub fn card_line(video: &Video, shown: &Option<String>) -> (r: String)
    ensures
        r@ == card_text(*video, read_text(*shown)),
{
    let views = browse::format_viewers(video.view_count);
    let mut out = String::new();
    match shown {
        Some(shown) => {
            out.append(shown.as_str());
            out.append(" · ");
        },
        None => {},
    }
    out.append(views.as_str());
    out.append(" views");
    assert(out@ =~= card_text(*video, read_text(*shown)));
    out
}

/// The one other control on a channel's page: the stream while it is on, and
/// the chat while it is not.
pub fn now_label(live: bool) -> (r: &'static str)
    ensures
        r@ == (if live {
            "watch live"@
        } else {
            "open chat"@
        }),
{
    if live {
        "watch live"
    } else {
        "open chat"
    }
}

// ── Laws ─────────────────────────────────────────────────────────────

/// A broadcast that started on the day it is today, or that is dated ahead, is
/// today's; it is never said to lie in the past.
pub proof fn law_today_is_today(started: Day, today: Day)
    requires
        started.number >= today.number,
    ensures
        when_text(started, today) == "today"@,
{
}

/// Once a broadcast has been over for ten minutes, and Twitch has put its own
/// picture up, it is not still going at any later moment either.
pub proof fn law_what_has_ended_stays_ended(video: Video, now: Moment, later: Moment)
    requires
        !going(video, now),
        later.is_after(now),
    ensures
        !going(video, later),
{
}

/// A broadcast that is still going never gets shorter as time goes by.
pub proof fn law_what_is_going_grows(video: Video, now: Moment, later: Moment)
    requires
        now.nanos < 1_000_000_000,
        later.nanos < 1_000_000_000,
        later.is_after(now),
        moment::named(video.created_at@) matches Some(started) ==> started.nanos < 1_000_000_000,
        elapsed(video, now) is Some,
    ensures
        elapsed(video, later) is Some,
        elapsed(video, now)->0 <= elapsed(video, later)->0,
{
}

/// Without Twitch's placeholder for it, a broadcast is still going until ten
/// minutes after the end it is listed with, and not after; with it, it always
/// is; and one whose start cannot be read is not.
pub proof fn law_a_broadcast_goes_on_for_ten_minutes(video: Video, started: Moment, now: Moment)
    requires
        moment::named(video.created_at@) == Some(started),
        started.nanos < 1_000_000_000,
        now.nanos < 1_000_000_000,
        !text::occurs(video.thumbnail_url@, "404_processing"@),
    ensures
        going(video, now) <==> now.secs * 1_000_000_000 + now.nanos <= (started.secs
            + video.length_secs + 600) * 1_000_000_000 + started.nanos,
{
}

/// Twitch's placeholder decides, and without it and without a start there is
/// nothing to go by.
pub proof fn law_the_placeholder_decides(video: Video, now: Moment)
    ensures
        text::occurs(video.thumbnail_url@, "404_processing"@) ==> going(video, now),
        !text::occurs(video.thumbnail_url@, "404_processing"@) && moment::named(video.created_at@)
            is None ==> !going(video, now),
{
}

/// A length is told in hours and minutes, in minutes, or in seconds, whichever
/// is the largest it has.
pub proof fn law_a_length_is_told_by_its_parts(hours: nat, minutes: nat, seconds: nat)
    requires
        minutes < 60,
        seconds < 60,
    ensures
        hours > 0 ==> long(hours * 3600 + minutes * 60 + seconds) == text::decimal(hours) + "h "@ + (
        text::decimal(minutes) + "m"@),
        hours == 0 && minutes > 0 ==> long(minutes * 60 + seconds) == text::decimal(minutes) + "m"@,
        long(seconds) == text::decimal(seconds) + "s"@,
{
    let all = hours * 3600 + minutes * 60 + seconds;
    assert(all / 60 == hours * 60 + minutes && (all / 60) % 60 == minutes && all / 3600 == hours);
    let less = minutes * 60 + seconds;
    assert(less / 60 == minutes && (less / 60) % 60 == minutes);
}

/// What is going is told by how long it has been since it started, and what is
/// over by the length it is listed with; only the first is said to be so far,
/// and to be streaming now.
pub proof fn law_what_is_going_is_told_so_far(
    video: Video,
    started: Moment,
    now: Moment,
    shown: Seq<char>,
)
    requires
        moment::named(video.created_at@) == Some(started),
        started.nanos < 1_000_000_000,
        now.nanos < 1_000_000_000,
        !started.is_after(now),
    ensures
        going(video, now) ==> corner_text(video, now) == long(
            ((now.secs - started.secs) + (if now.nanos < started.nanos {
                -1int
            } else {
                0
            })) as nat,
        ) + " so far"@,
        !going(video, now) ==> corner_text(video, now) == long(video.length_secs as nat),
        going(video, now) ==> described(video, now, Some(shown)) == "streaming now · "@
            + corner_text(video, now),
        !going(video, now) ==> described(video, now, Some(shown)) == shown + " · "@ + corner_text(
            video,
            now,
        ),
        !going(video, now) ==> described(video, now, None) == corner_text(video, now),
{
    moment::law_time_between_is_counted_whole(now, started, 0);
    let s = now.secs - started.secs;
    let n = now.nanos - started.nanos;
    let m = n / 1_000_000;
    assert((s * 1000 + m) / 1000 == s + m / 1000);
    assert(n < 0 ==> m / 1000 == -1);
    assert(n >= 0 ==> m / 1000 == 0);
}

/// What is said of a day by how many days ago it was.
pub proof fn law_days_are_told_from_each_other(started: Day, today: Day)
    ensures
        ({
            let days = today.number - started.number;
            let said = when_text(started, today);
            &&& days <= 0 ==> said == "today"@
            &&& days == 1 ==> said == "yesterday"@
            &&& 2 <= days <= 6 ==> said == text::decimal(days as nat) + " days ago"@
            &&& 7 <= days <= 13 ==> said == "last week"@
            &&& 14 <= days <= 20 ==> said == text::decimal(2) + " weeks ago"@
            &&& 21 <= days <= 27 ==> said == text::decimal(3) + " weeks ago"@
            &&& days >= 28 && started.year == today.year ==> said == text::decimal(
                started.day as nat,
            ) + " "@ + month_name(started.month as nat)
            &&& days >= 28 && started.year != today.year && 1000 <= started.year <= 9999 ==> said
                == text::decimal(started.day as nat) + " "@ + month_name(started.month as nat)
                + " "@ + text::decimal(started.year as nat)
        }),
{
}

/// The months as they are written.
pub proof fn law_months_have_their_names()
    ensures
        month_name(1) == "Jan"@,
        month_name(2) == "Feb"@,
        month_name(3) == "Mar"@,
        month_name(4) == "Apr"@,
        month_name(5) == "May"@,
        month_name(6) == "Jun"@,
        month_name(7) == "Jul"@,
        month_name(8) == "Aug"@,
        month_name(9) == "Sep"@,
        month_name(10) == "Oct"@,
        month_name(11) == "Nov"@,
        month_name(12) == "Dec"@,
{
}

/// A card tells a recording's views, after the day it was made where that is
/// known.
pub proof fn law_a_card_tells_its_views(video: Video, shown: Seq<char>)
    ensures
        card_text(video, None) == browse::viewers(video.view_count as nat) + " views"@,
        text::begins(card_text(video, Some(shown)), shown),
        card_text(video, Some(shown)).skip(shown.len() as int) == " · "@ + browse::viewers(
            video.view_count as nat,
        ) + " views"@,
{
    let all = card_text(video, Some(shown));
    assert(all.take(shown.len() as int) =~= shown);
    assert(all.skip(shown.len() as int) =~= " · "@ + browse::viewers(video.view_count as nat)
        + " views"@);
}

/// A year takes four places, or more where it needs them, and reads as itself
/// there; one that takes more has its sign before it, and so has one before the
/// first.
pub proof fn law_a_year_takes_four_places(year: int)
    ensures
        ({
            let digits = if 0 <= year <= 9999 {
                year_text(year)
            } else {
                year_text(year).drop_first()
            };
            &&& digits.len() >= 4
            &&& -9999 <= year <= 9999 ==> digits.len() == 4
            &&& text::all_digits(digits)
            &&& text::digits_value(digits) == (if year < 0 {
                -year
            } else {
                year
            })
            &&& year < 0 ==> year_text(year)[0] == '-'
            &&& year > 9999 ==> year_text(year)[0] == '+'
        }),
{
    let n = (if year < 0 {
        -year
    } else {
        year
    }) as nat;
    lemma_four_digits(n);
    reveal_strlit("-");
    reveal_strlit("+");
    if !(0 <= year <= 9999) {
        assert(year_text(year).drop_first() =~= four_digits(n));
    }
}

proof fn lemma_four_digits(n: nat)
    ensures
        four_digits(n).len() >= 4,
        n <= 9999 ==> four_digits(n).len() == 4,
        text::all_digits(four_digits(n)),
        text::digits_value(four_digits(n)) == n,
{
    reveal_strlit("000");
    reveal_strlit("00");
    reveal_strlit("0");
    reveal_with_fuel(text::decimal, 5);
    crate::rewritten::lemma_decimal(n);
    let d = text::decimal(n);
    if n < 10 {
        lemma_leading_zeros("000"@, d);
    } else if n < 100 {
        lemma_leading_zeros("00"@, d);
    } else if n < 1000 {
        lemma_leading_zeros("0"@, d);
    }
}

proof fn lemma_leading_zeros(zeros: Seq<char>, d: Seq<char>)
    requires
        forall|i: int| 0 <= i < zeros.len() ==> #[trigger] zeros[i] == '0',
    ensures
        text::digits_value(zeros + d) == text::digits_value(d),
    decreases zeros.len() + d.len(),
{
    let all = zeros + d;
    if d.len() > 0 {
        assert(all.drop_last() =~= zeros + d.drop_last());
        lemma_leading_zeros(zeros, d.drop_last());
    } else if zeros.len() > 0 {
        assert(all =~= zeros);
        assert(all.drop_last() =~= zeros.drop_last() + d);
        lemma_leading_zeros(zeros.drop_last(), d);
        assert(all.last() == '0');
    }
}

} // verus!
