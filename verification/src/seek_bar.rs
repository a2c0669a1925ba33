//! The arithmetic behind the seek bar on a past broadcast. Times are in
//! milliseconds.

use crate::text;
use vstd::prelude::*;
use vstd::string::*;

verus! {

/// How long a recording is, and whether it is still getting longer.
#[derive(Debug, Clone, Copy, PartialEq, Eq)]
pub struct Timeline {
    /// As Twitch reported it.
    pub length: u64,
    /// Still being recorded: the length grows as time goes by.
    pub growing: bool,
}

pub open spec fn most(a: int, b: int) -> int {
    if a >= b {
        a
    } else {
        b
    }
}

impl Timeline {
    /// The bar's right-hand end, given where the playhead is, and how long ago
    /// the length was true. Never less than the position, so that a recording
    /// that turns out longer than listed extends the bar; and never less than a
    /// second, so that nothing divides by zero.
    pub open spec fn reaches(self, position: int, since: int) -> int {
        most(
            most(
                self.length + (if self.growing {
                    since
                } else {
                    0
                }),
                position,
            ),
            1000,
        )
    }

    pub fn extent(&self, position: u64, since: u64) -> (r: u128)
        ensures
            r == self.reaches(position as int, since as int),
            1000 <= r <= 0x1_0000_0000_0000_0000_0000,
            position <= r,
    {
        let mut end: u128 = self.length as u128;
        if self.growing {
            end = end + since as u128;
        }
        if end < position as u128 {
            end = position as u128;
        }
        if end < 1000 {
            end = 1000;
        }
        end
    }

    /// Where a skip from `position` lands: never before the start, and never
    /// behind the end.
    pub fn skip(&self, position: u64, since: u64, delta: i64) -> (r: u128)
        ensures
            r == (if position + delta < 0 {
                0
            } else if position + delta > self.reaches(position as int, since as int) {
                self.reaches(position as int, since as int)
            } else {
                position + delta
            }),
    {
        let end: u128 = self.extent(position, since);
        let target: i128 = position as i128 + delta as i128;
        if target < 0 {
            0
        } else if target as u128 > end {
            end
        } else {
            target as u128
        }
    }
}

/// What the whole length of the bar is counted as, where a part of it is meant.
pub const WHOLE: u32 = 1_000_000;

/// How far along a track a pointer is, never off either end. A track that has
/// not been laid out has no width, and no part of it is played.
pub open spec fn along(origin: int, width: int, pointer: int) -> int {
    if width <= 0 || pointer <= origin {
        0
    } else if pointer >= origin + width {
        WHOLE as int
    } else {
        (pointer - origin) * WHOLE / width
    }
}

pub fn fraction_at(origin: i32, width: u32, pointer: i32) -> (r: u32)
    ensures
        r == along(origin as int, width as int, pointer as int),
        r <= WHOLE,
{
    if width == 0 || pointer <= origin {
        return 0;
    }
    let into: i64 = pointer as i64 - origin as i64;
    if into >= width as i64 {
        return WHOLE;
    }
    assert(into * WHOLE <= 0xffff_ffff * 1_000_000);
    let part: u64 = into as u64 * WHOLE as u64 / width as u64;
    proof {
        lemma_along_bounded(origin as int, width as int, pointer as int);
    }
    part as u32
}

/// Moving the pointer right never moves the thumb left.
pub proof fn law_the_thumb_follows_the_pointer(origin: int, width: int, left: int, right: int)
    requires
        left <= right,
    ensures
        0 <= along(origin, width, left) <= along(origin, width, right) <= WHOLE,
{
    if width > 0 {
        lemma_along_bounded(origin, width, left);
        lemma_along_bounded(origin, width, right);
        if origin < left && right < origin + width {
            assert((left - origin) * WHOLE <= (right - origin) * WHOLE) by (nonlinear_arith)
                requires
                    left <= right,
            ;
            vstd::arithmetic::div_mod::lemma_div_is_ordered(
                (left - origin) * WHOLE,
                (right - origin) * WHOLE,
                width,
            );
        }
    }
}

proof fn lemma_along_bounded(origin: int, width: int, pointer: int)
    requires
        width > 0,
    ensures
        0 <= along(origin, width, pointer) <= WHOLE,
{
    let into = pointer - origin;
    if 0 < into < width {
        assert(0 <= into * WHOLE <= WHOLE * width) by (nonlinear_arith)
            requires
                0 < into < width,
        ;
        vstd::arithmetic::div_mod::lemma_div_is_ordered(into * WHOLE, WHOLE * width, width);
        vstd::arithmetic::div_mod::lemma_div_by_multiple(WHOLE as int, width);
        vstd::arithmetic::div_mod::lemma_div_pos_is_pos(into * WHOLE, width);
    }
}

/// The time that a part of the bar stands for.
pub open spec fn time_at(fraction: int, extent: int) -> int {
    fraction * extent / WHOLE as int
}

pub fn time_of(fraction: u32, extent: u128) -> (r: u128)
    requires
        extent <= 0x1_0000_0000_0000_0000_0000,
    ensures
        r == time_at(fraction as int, extent as int),
{
    assert(fraction * extent <= 0xffff_ffff * 0x1_0000_0000_0000_0000_0000) by (nonlinear_arith)
        requires
            fraction <= 0xffff_ffff,
            extent <= 0x1_0000_0000_0000_0000_0000,
    ;
    fraction as u128 * extent / WHOLE as u128
}

/// How much of a bar is played.
pub open spec fn played(position: int, extent: int) -> int {
    position * WHOLE / extent
}

/// How much of a bar is played, whose end is never before the playhead.
pub fn played_of(position: u64, extent: u128) -> (r: u32)
    requires
        position <= extent,
        extent > 0,
    ensures
        r == played(position as int, extent as int),
        r <= WHOLE,
{
    assert(0 <= position * WHOLE <= WHOLE * extent) by (nonlinear_arith)
        requires
            0 <= position <= extent,
            WHOLE == 1_000_000,
    ;
    proof {
        vstd::arithmetic::div_mod::lemma_div_is_ordered(
            position * WHOLE,
            WHOLE * extent,
            extent as int,
        );
        vstd::arithmetic::div_mod::lemma_div_by_multiple(WHOLE as int, extent as int);
        vstd::arithmetic::div_mod::lemma_div_pos_is_pos(position * WHOLE, extent as int);
    }
    (position as u128 * WHOLE as u128 / extent) as u32
}

/// A playhead is never off the bar, whatever the listing said.
pub proof fn law_the_playhead_is_on_the_bar(timeline: Timeline, position: int, since: int)
    requires
        position >= 0,
        since >= 0,
    ensures
        position <= timeline.reaches(position, since),
        timeline.length <= timeline.reaches(position, since),
        timeline.reaches(position, since) >= 1000,
{
}

/// A finished recording has a fixed end, and one still being made a later one
/// as time goes by.
pub proof fn law_only_what_grows_gets_longer(timeline: Timeline, position: int, then: int, now: int)
    requires
        0 <= then <= now,
    ensures
        timeline.reaches(position, then) <= timeline.reaches(position, now),
        !timeline.growing ==> timeline.reaches(position, then) == timeline.reaches(position, now),
{
}

/// `h:mm:ss`, or `m:ss` under an hour.
pub open spec fn written(secs: nat) -> Seq<char> {
    let end = text::two_digits(secs % 60);
    if secs >= 3600 {
        text::decimal(secs / 3600) + ":"@ + text::two_digits((secs / 60) % 60) + ":"@ + end
    } else {
        text::decimal((secs / 60) % 60) + ":"@ + end
    }
}

/// A time the way every player writes it, in whole seconds.
pub fn time_text(millis: u128) -> (r: String)
    ensures
        r@ == written((millis / 1000) as nat),
{
    let total: u128 = millis / 1000;
    let mut out = String::new();
    if total >= 3600 {
        text::push_wide(&mut out, total / 3600);
        out.append(":");
        text::push_two_digits(&mut out, ((total / 60) % 60) as u64);
    } else {
        text::push_wide(&mut out, (total / 60) % 60);
    }
    out.append(":");
    text::push_two_digits(&mut out, (total % 60) as u64);
    assert(out@ =~= written(total as nat));
    out
}

/// The same of a time that may lie before the start, where nothing is.
pub fn timecode(millis: i64) -> (r: String)
    ensures
        r@ == written(
            (if millis < 0 {
                0
            } else {
                millis / 1000
            }) as nat,
        ),
{
    if millis < 0 {
        time_text(0)
    } else {
        time_text(millis as u128)
    }
}

/// The two ends of a track are the two ends of the bar, a pointer beyond either
/// is at that end, and the middle is the middle.
pub proof fn law_the_ends_of_the_track_are_the_ends(origin: int, width: int, pointer: int)
    requires
        width > 0,
    ensures
        pointer <= origin ==> along(origin, width, pointer) == 0,
        pointer >= origin + width ==> along(origin, width, pointer) == 1_000_000,
        2 * (pointer - origin) == width ==> along(origin, width, pointer) == 500_000,
        origin <= pointer <= origin + width ==> along(origin, width, pointer) * width <= (pointer
            - origin) * 1_000_000 < (along(origin, width, pointer) + 1) * width || pointer == origin
            + width,
{
    if origin < pointer < origin + width {
        let x = (pointer - origin) * WHOLE;
        let q = x / width;
        vstd::arithmetic::div_mod::lemma_fundamental_div_mod(x, width);
        vstd::arithmetic::div_mod::lemma_mod_bound(x, width);
        assert(width * q == q * width && (q + 1) * width == q * width + width) by (nonlinear_arith);
        if 2 * (pointer - origin) == width {
            assert(x == 500_000 * width) by (nonlinear_arith)
                requires
                    x == (pointer - origin) * 1_000_000,
                    2 * (pointer - origin) == width,
            ;
            vstd::arithmetic::div_mod::lemma_div_multiples_vanish(500_000, width);
            assert(500_000 * width == width * 500_000) by (nonlinear_arith);
        }
    } else if pointer == origin {
        assert(0 * width == 0 && (0 + 1) * width == width) by (nonlinear_arith);
    }
}

/// The whole bar stands for the whole recording, none of it for its beginning,
/// and further along for later.
pub proof fn law_further_along_is_later(near: int, far: int, extent: int)
    requires
        0 <= near <= far,
        0 <= extent,
    ensures
        time_at(0, extent) == 0,
        time_at(1_000_000, extent) == extent,
        time_at(500_000, extent) == extent / 2,
        time_at(near, extent) <= time_at(far, extent),
{
    assert(0 * extent == 0) by (nonlinear_arith);
    assert(near * extent <= far * extent) by (nonlinear_arith)
        requires
            near <= far,
            extent >= 0,
    ;
    vstd::arithmetic::div_mod::lemma_div_is_ordered(near * extent, far * extent, WHOLE as int);
}

/// How much of a bar is played: nothing at the beginning, all at the end, and
/// more as it plays on; and where the bar is taken up again at what is played,
/// it is within a millionth of where it was.
pub proof fn law_what_is_played_grows(near: int, far: int, extent: int)
    requires
        0 <= near <= far <= extent,
        extent > 0,
    ensures
        played(0, extent) == 0,
        played(extent, extent) == 1_000_000,
        played(near, extent) <= played(far, extent),
        time_at(played(near, extent), extent) <= near,
        1_000_000 * (near - time_at(played(near, extent), extent)) < extent + 1_000_000,
{
    let w = WHOLE as int;
    vstd::arithmetic::div_mod::lemma_div_is_ordered(near * w, far * w, extent);
    vstd::arithmetic::div_mod::lemma_div_multiples_vanish(w, extent);
    assert(extent * w == w * extent && 0 * w == 0) by (nonlinear_arith);
    vstd::arithmetic::div_mod::lemma_basic_div(0, extent);
    let p = played(near, extent);
    vstd::arithmetic::div_mod::lemma_fundamental_div_mod(near * w, extent);
    vstd::arithmetic::div_mod::lemma_mod_bound(near * w, extent);
    assert(p * extent == extent * p) by (nonlinear_arith);
    let t = time_at(p, extent);
    vstd::arithmetic::div_mod::lemma_fundamental_div_mod(p * extent, w);
    vstd::arithmetic::div_mod::lemma_mod_bound(p * extent, w);
}

/// The bar ends where the recording ends, or where it is if that is later; one
/// still being made has grown by the time since.
pub proof fn law_the_bar_ends_with_the_recording(timeline: Timeline, position: int, since: int)
    requires
        0 <= position,
        0 <= since,
        timeline.length >= 1000,
    ensures
        !timeline.growing && position <= timeline.length ==> timeline.reaches(position, since)
            == timeline.length,
        timeline.growing && position <= timeline.length + since ==> timeline.reaches(
            position,
            since,
        ) == timeline.length + since,
        position > timeline.length + since ==> timeline.reaches(position, since) == position,
{
}

/// A time of less than an hour is minutes and seconds, and a longer one has its
/// hours before them, every part in its place.
pub proof fn law_a_time_is_written_by_its_parts(hours: nat, minutes: nat, seconds: nat)
    requires
        minutes < 60,
        seconds < 60,
    ensures
        hours == 0 ==> written(minutes * 60 + seconds) == text::decimal(minutes) + ":"@
            + text::two_digits(seconds),
        hours > 0 ==> written(hours * 3600 + minutes * 60 + seconds) == text::decimal(hours)
            + ":"@ + text::two_digits(minutes) + ":"@ + text::two_digits(seconds),
{
    let all = hours * 3600 + minutes * 60 + seconds;
    assert(all % 60 == seconds && all / 60 == hours * 60 + minutes);
    assert((all / 60) % 60 == minutes && all / 3600 == hours);
}

} // verus!
