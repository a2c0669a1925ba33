//! What a rewritten playlist reads back as.
//!
//! The copy that the player reads must say what the recording's own playlist
//! said. That is proved here: reading what was written gives the list it was
//! written from, and every list that was read can be written.

use crate::playlist;
use crate::playlist::{PlaylistView, Progress, SegmentView};
use crate::seconds;
use crate::seconds::Seconds;
use crate::text;
use vstd::prelude::*;

verus! {

// ── Numbers ──────────────────────────────────────────────────────────

/// A number in decimal is digits that count it.
pub proof fn lemma_decimal(n: nat)
    ensures
        text::decimal(n).len() > 0,
        text::all_digits(text::decimal(n)),
        text::digits_value(text::decimal(n)) == n,
    decreases n,
{
    let d = text::decimal(n);
    if n < 10 {
        reveal_with_fuel(text::digits_value, 2);
        assert(d.drop_last() =~= Seq::<char>::empty());
        assert(d.last() as u32 == 48 + n);
    } else {
        lemma_decimal(n / 10);
        let front = text::decimal(n / 10);
        assert(d.drop_last() =~= front);
        assert(d.last() as u32 == 48 + n % 10);
        assert forall|i: int| 0 <= i < d.len() implies text::is_digit(#[trigger] d[i]) by {
            if i < front.len() {
                assert(text::is_digit(front[i]));
            }
        }
    }
}

proof fn lemma_digits_hold_no_other(s: Seq<char>, c: char)
    requires
        text::all_digits(s),
        !text::is_digit(c),
    ensures
        !s.contains(c),
        text::first(s, c) == s.len(),
{
    text::lemma_first(s, c);
    if s.contains(c) {
        let i = choose|i: int| 0 <= i < s.len() && s[i] == c;
        assert(text::is_digit(s[i]));
    }
}

/// Text that neither begins nor ends with white space is left alone.
proof fn lemma_trim_keeps(s: Seq<char>)
    requires
        s.len() > 0,
        !text::is_space(s[0]),
        !text::is_space(s.last()),
    ensures
        text::trim(s) == s,
        text::trim_start(s) == s,
{
}

pub proof fn lemma_decimal_reads_back(n: u32, otherwise: u32)
    ensures
        playlist::number_or(text::decimal(n as nat), otherwise) == n,
{
    let d = text::decimal(n as nat);
    lemma_decimal(n as nat);
    assert(text::is_digit(d[0]) && text::is_digit(d[d.len() - 1]));
    lemma_trim_keeps(d);
}

proof fn lemma_places(d: nat)
    ensures
        ((d / 100) % 10) * 100 + ((d / 10) % 10) * 10 + d % 10 == d % 1000,
        (d / 1000) * 1000 + d % 1000 == d,
{
    let a = d / 10;
    let b = a / 10;
    let c = b / 10;
    assert(d == 10 * a + d % 10);
    assert(a == 10 * b + a % 10);
    assert(b == 10 * c + b % 10);
    assert(d / 100 == b) by {
        assert(d == 100 * b + (10 * (a % 10) + d % 10));
    }
    assert(d / 1000 == c && d % 1000 == d - 1000 * c) by {
        assert(d == 1000 * c + (100 * (b % 10) + 10 * (a % 10) + d % 10));
    }
}

/// Where the point stands in a number with three places, and what stands on
/// either side of it.
proof fn lemma_thousandths(d: nat)
    ensures
        ({
            let t = text::thousandths(d);
            let fraction = text::tail(t, '.');
            &&& t.len() > 0
            &&& text::head(t, '.') == text::decimal(d / 1000)
            &&& fraction.len() == 3
            &&& fraction[0] == text::digit_char(((d / 100) % 10) as int)
            &&& fraction[1] == text::digit_char(((d / 10) % 10) as int)
            &&& fraction[2] == text::digit_char((d % 10) as int)
            &&& forall|i: int|
                0 <= i < t.len() ==> text::is_digit(#[trigger] t[i]) || t[i] == '.'
            &&& text::is_digit(t[0])
            &&& text::is_digit(t.last())
        }),
{
    let whole = text::decimal(d / 1000);
    let t = text::thousandths(d);
    let n = whole.len() as int;
    lemma_decimal(d / 1000);
    assert(text::is_digit(whole[0]));
    assert forall|i: int| 0 <= i < t.len() implies text::is_digit(#[trigger] t[i]) || (i == n
        && t[i] == '.') by {
        if i < n {
            assert(text::is_digit(whole[i]));
        }
    }
    assert forall|i: int| 0 <= i < n implies t[i] != '.' by {
        assert(text::is_digit(t[i]));
    }
    text::lemma_first_is(t, '.', n);
    assert(text::head(t, '.') =~= whole);
    assert(t[0] == whole[0]);
}

/// So many thousandths, written with three places, are digits with a point.
proof fn lemma_places_read_back(n: u64)
    requires
        seconds::steady(n),
    ensures
        ({
            let t = text::thousandths(n as nat);
            &&& text::lower_text(t) == t
            &&& seconds::magnitude(t) matches Some(seconds::Magnitude::Finite { digits, exponent })
                && digits == n && exponent == -3
            &&& seconds::denominator(-3) == 1000
        }),
{
    let t = text::thousandths(n as nat);
    let fraction = text::tail(t, '.');
    let whole = text::head(t, '.');
    lemma_decimal(n as nat / 1000);
    lemma_thousandths(n as nat);
    lemma_places(n as nat);
    assert(seconds::ten(3) == 1000) by {
        reveal_with_fuel(seconds::ten, 4);
    }
    assert(text::digits_value(fraction) == n as nat % 1000) by {
        reveal_with_fuel(text::digits_value, 4);
    }
    seconds::lemma_digits_append(whole, fraction);
    assert(text::digits_value(whole + fraction) == n);
    assert(text::all_digits(whole + fraction)) by {
        assert forall|i: int| 0 <= i < (whole + fraction).len() implies text::is_digit(
            #[trigger] (whole + fraction)[i],
        ) by {
            if i < whole.len() {
                assert(text::is_digit(whole[i]));
            } else if i == whole.len() {
                assert(text::is_digit(fraction[0]));
            } else if i == whole.len() + 1 {
                assert(text::is_digit(fraction[1]));
            } else {
                assert(text::is_digit(fraction[2]));
            }
        }
    }
    assert(text::lower_text(t) =~= t) by {
        assert forall|i: int| 0 <= i < t.len() implies text::lower(t[i]) == t[i] by {
            assert(text::is_digit(t[i]) || t[i] == '.');
        }
    }
    assert forall|i: int| 0 <= i < t.len() implies t[i] != 'e' by {
        assert(text::is_digit(t[i]) || t[i] == '.');
    }
    text::lemma_first_is(t, 'e', t.len() as int);
    assert(text::head(t, 'e') =~= t);
    reveal_strlit("inf");
    reveal_strlit("infinity");
    reveal_strlit("nan");
    assert(t != "inf"@ && t != "infinity"@ && t != "nan"@) by {
        assert("inf"@[0] == 'i' && "infinity"@[0] == 'i' && "nan"@[0] == 'n');
    }
}

/// A duration written with three places reads back as itself, where that many
/// thousandths can be told from the next.
proof fn lemma_duration_reads_back(d: Seconds)
    requires
        seconds::settled(d),
    ensures
        ({
            let t = seconds::written(d);
            &&& t.len() > 0
            &&& !t.contains(',')
            &&& !t.contains('\n')
            &&& text::trim(t) == t
            &&& seconds::reading(t) == Some(d)
        }),
{
    let t = seconds::written(d);
    seconds::lemma_beyond();
    reveal_strlit("-");
    reveal_strlit("inf");
    reveal_strlit("-inf");
    reveal_strlit("infinity");
    reveal_strlit("nan");
    reveal_strlit("NaN");
    match d {
        Seconds::Finite { negative, thousandths } => {
            let n = text::thousandths(thousandths as nat);
            lemma_places_read_back(thousandths);
            lemma_thousandths(thousandths as nat);
            assert forall|i: int| 0 <= i < t.len() implies t[i] != ',' && t[i] != '\n' by {
                if negative {
                    if i > 0 {
                        assert(t[i] == n[i - 1]);
                    }
                } else {
                    assert(text::is_digit(t[i]) || t[i] == '.');
                }
            }
            if negative {
                assert(t[t.len() - 1] == n.last());
                assert(text::lower_text(t) =~= t) by {
                    assert forall|i: int| 0 <= i < t.len() implies text::lower(t[i]) == t[i] by {
                        if i > 0 {
                            assert(text::is_digit(n[i - 1]) || n[i - 1] == '.');
                        }
                    }
                }
                assert(seconds::unsigned(t) =~= n);
            } else {
                assert(seconds::unsigned(t) == n);
            }
        },
        Seconds::Infinite { negative } => {
            let small = text::lower_text(t);
            assert(small =~= t);
            assert(seconds::unsigned(small) =~= "inf"@);
        },
        Seconds::NoNumber => {
            let small = text::lower_text(t);
            assert(small =~= "nan"@);
            assert(seconds::unsigned(small) == small);
        },
    }
    lemma_trim_keeps(t);
}

// ── Lines ────────────────────────────────────────────────────────────

/// The lines of a text that hold something.
spec fn body_lines(s: Seq<char>) -> Seq<Seq<char>> {
    playlist::kept_lines(text::split(s, '\n'))
}

/// What a text adds to what has been read.
spec fn run(p: Progress, s: Seq<char>) -> Progress {
    playlist::with_lines(p, body_lines(s))
}

proof fn lemma_kept_front(x: Seq<char>, rest: Seq<Seq<char>>)
    ensures
        playlist::kept_lines(seq![x] + rest) == playlist::kept_lines(seq![x])
            + playlist::kept_lines(rest),
    decreases rest.len(),
{
    let all = seq![x] + rest;
    if rest.len() == 0 {
        assert(all =~= seq![x]);
        assert(playlist::kept_lines(seq![x]) + Seq::<Seq<char>>::empty() =~= playlist::kept_lines(
            seq![x],
        ));
    } else {
        lemma_kept_front(x, rest.drop_last());
        assert(all.drop_last() =~= seq![x] + rest.drop_last());
        assert(all.last() == rest.last());
        assert(playlist::kept_lines(all) =~= playlist::kept_lines(seq![x]) + playlist::kept_lines(
            rest,
        ));
    }
}

proof fn lemma_with_lines_joins(p: Progress, a: Seq<Seq<char>>, b: Seq<Seq<char>>)
    ensures
        playlist::with_lines(p, a + b) == playlist::with_lines(playlist::with_lines(p, a), b),
    decreases b.len(),
{
    if b.len() == 0 {
        assert(a + b =~= a);
    } else {
        lemma_with_lines_joins(p, a, b.drop_last());
        assert((a + b).drop_last() =~= a + b.drop_last());
        assert((a + b).last() == b.last());
    }
}

/// A clean line adds what a line adds, and the rest is read behind it.
proof fn lemma_run_line(p: Progress, line: Seq<char>, rest: Seq<char>)
    requires
        !line.contains('\n'),
        line.len() > 0,
        text::trim(line) == line,
    ensures
        run(p, line + seq!['\n'] + rest) == run(playlist::with_line(p, line), rest),
{
    let s = line + seq!['\n'] + rest;
    assert forall|k: int| 0 <= k < line.len() implies s[k] != '\n' by {
        assert(s[k] == line[k]);
    }
    text::lemma_first_is(s, '\n', line.len() as int);
    assert(text::head(s, '\n') =~= line);
    assert(text::tail(s, '\n') =~= rest);
    assert(text::split(s, '\n') =~= seq![line] + text::split(rest, '\n'));
    lemma_kept_front(line, text::split(rest, '\n'));
    assert(seq![line].drop_last() =~= Seq::<Seq<char>>::empty());
    reveal_with_fuel(playlist::kept_lines, 2);
    reveal_with_fuel(playlist::with_lines, 2);
    assert(playlist::kept_lines(seq![line]) =~= seq![line]);
    lemma_with_lines_joins(p, seq![line], body_lines(rest));
    assert(playlist::with_lines(p, seq![line]) == playlist::with_line(p, line));
}

proof fn lemma_run_nothing(p: Progress)
    ensures
        run(p, Seq::empty()) == p,
{
    let none = Seq::<char>::empty();
    let one = text::split(none, '\n');
    assert(one =~= seq![none]);
    assert(one.drop_last() =~= Seq::<Seq<char>>::empty());
    reveal_with_fuel(playlist::kept_lines, 2);
    assert(playlist::kept_lines(one) =~= Seq::<Seq<char>>::empty());
}

proof fn lemma_not_begins(s: Seq<char>, p: Seq<char>, k: int)
    requires
        0 <= k < p.len(),
        k < s.len() ==> s[k] != p[k],
    ensures
        !text::begins(s, p),
{
    if text::begins(s, p) {
        assert(s.take(p.len() as int)[k] == p[k]);
    }
}

/// A line that begins with a mark, read as what stands behind the mark.
proof fn lemma_marked(mark: Seq<char>, rest: Seq<char>)
    ensures
        text::begins(mark + rest, mark),
        (mark + rest).skip(mark.len() as int) == rest,
{
    assert((mark + rest).take(mark.len() as int) =~= mark);
    assert((mark + rest).skip(mark.len() as int) =~= rest);
}

/// A tag that a reading passes over.
proof fn lemma_passed_over(p: Progress, line: Seq<char>)
    requires
        line.len() > 7,
        line[0] == '#',
        line[4] == '-',
        line[7] == 'M' && line[8] == 'E' || line[7] == 'P',
        line.len() > 8,
    ensures
        playlist::with_line(p, line) == p,
{
    reveal_strlit("#EXT-X-VERSION:");
    reveal_strlit("#EXT-X-TARGETDURATION:");
    reveal_strlit("#EXT-X-MAP:");
    reveal_strlit("#EXTINF:");
    reveal_strlit("#EXT-X-DISCONTINUITY");
    reveal_strlit("#EXT-X-ENDLIST");
    lemma_not_begins(line, "#EXT-X-VERSION:"@, 7);
    lemma_not_begins(line, "#EXT-X-TARGETDURATION:"@, 7);
    lemma_not_begins(line, "#EXT-X-MAP:"@, if line[7] == 'P' {
        7
    } else {
        8
    });
    lemma_not_begins(line, "#EXTINF:"@, 4);
    assert("#EXT-X-DISCONTINUITY"@[7] == 'D');
    assert("#EXT-X-ENDLIST"@[7] == 'E');
}

proof fn lemma_first_line(p: Progress)
    ensures
        playlist::with_line(p, "#EXTM3U"@) == p,
        !("#EXTM3U"@).contains('\n'),
        text::trim("#EXTM3U"@) == "#EXTM3U"@,
        "#EXTM3U"@.len() > 0,
{
    reveal_strlit("#EXTM3U");
    reveal_strlit("#EXT-X-VERSION:");
    reveal_strlit("#EXT-X-TARGETDURATION:");
    reveal_strlit("#EXT-X-MAP:");
    reveal_strlit("#EXTINF:");
    reveal_strlit("#EXT-X-DISCONTINUITY");
    reveal_strlit("#EXT-X-ENDLIST");
    let line = "#EXTM3U"@;
    lemma_not_begins(line, "#EXT-X-VERSION:"@, 4);
    lemma_not_begins(line, "#EXT-X-TARGETDURATION:"@, 4);
    lemma_not_begins(line, "#EXT-X-MAP:"@, 4);
    lemma_not_begins(line, "#EXTINF:"@, 4);
    assert("#EXT-X-DISCONTINUITY"@.len() == 20);
    assert("#EXT-X-ENDLIST"@.len() == 14);
    lemma_trim_keeps(line);
}

proof fn lemma_version_line(p: Progress, n: u32)
    ensures
        ({
            let line = "#EXT-X-VERSION:"@ + text::decimal(n as nat);
            &&& playlist::with_line(p, line) == Progress {
                list: PlaylistView { version: n, ..p.list },
                ..p
            }
            &&& !line.contains('\n')
            &&& text::trim(line) == line
            &&& line.len() > 0
        }),
{
    let d = text::decimal(n as nat);
    let line = "#EXT-X-VERSION:"@ + d;
    reveal_strlit("#EXT-X-VERSION:");
    lemma_decimal(n as nat);
    lemma_digits_hold_no_other(d, '\n');
    lemma_decimal_reads_back(n, 3);
    lemma_marked("#EXT-X-VERSION:"@, d);
    assert forall|i: int| 0 <= i < line.len() implies line[i] != '\n' by {
        if i >= 15 {
            assert(line[i] == d[i - 15]);
        }
    }
    assert(text::is_digit(d[d.len() - 1]));
    assert(line.last() == d.last());
    lemma_trim_keeps(line);
}

proof fn lemma_target_line(p: Progress, n: u32)
    ensures
        ({
            let line = "#EXT-X-TARGETDURATION:"@ + text::decimal(n as nat);
            &&& playlist::with_line(p, line) == Progress {
                list: PlaylistView { target_duration: n, ..p.list },
                ..p
            }
            &&& !line.contains('\n')
            &&& text::trim(line) == line
            &&& line.len() > 0
        }),
{
    let d = text::decimal(n as nat);
    let line = "#EXT-X-TARGETDURATION:"@ + d;
    reveal_strlit("#EXT-X-VERSION:");
    reveal_strlit("#EXT-X-TARGETDURATION:");
    lemma_not_begins(line, "#EXT-X-VERSION:"@, 7);
    lemma_decimal(n as nat);
    lemma_digits_hold_no_other(d, '\n');
    lemma_decimal_reads_back(n, 10);
    lemma_marked("#EXT-X-TARGETDURATION:"@, d);
    assert forall|i: int| 0 <= i < line.len() implies line[i] != '\n' by {
        if i >= 22 {
            assert(line[i] == d[i - 22]);
        }
    }
    assert(text::is_digit(d[d.len() - 1]));
    assert(line.last() == d.last());
    lemma_trim_keeps(line);
}

proof fn lemma_sequence_line(p: Progress, n: nat)
    ensures
        ({
            let line = "#EXT-X-MEDIA-SEQUENCE:"@ + text::decimal(n);
            &&& playlist::with_line(p, line) == p
            &&& !line.contains('\n')
            &&& text::trim(line) == line
            &&& line.len() > 0
        }),
{
    let d = text::decimal(n);
    let line = "#EXT-X-MEDIA-SEQUENCE:"@ + d;
    reveal_strlit("#EXT-X-MEDIA-SEQUENCE:");
    lemma_decimal(n);
    lemma_digits_hold_no_other(d, '\n');
    lemma_passed_over(p, line);
    assert forall|i: int| 0 <= i < line.len() implies line[i] != '\n' by {
        if i >= 22 {
            assert(line[i] == d[i - 22]);
        }
    }
    assert(text::is_digit(d[d.len() - 1]));
    assert(line.last() == d.last());
    lemma_trim_keeps(line);
}

// ── Clean links ──────────────────────────────────────────────────────

/// A link that stands on a line of its own and needs nothing before it.
pub open spec fn clean_link(u: Seq<char>) -> bool {
    &&& u.len() > 0
    &&& u[0] != '#'
    &&& !text::is_space(u[0])
    &&& !text::is_space(u.last())
    &&& !u.contains('\n')
    &&& text::occurs(u, "://"@)
}

/// A link that can stand between quotes.
pub open spec fn quotable_link(u: Seq<char>) -> bool {
    !u.contains('\n') && !u.contains('"') && text::occurs(u, "://"@)
}

/// A list that can be written: its links are clean, and every segment is as
/// long as its own thousandths say.
pub open spec fn writable(list: PlaylistView) -> bool {
    &&& list.init is Some ==> quotable_link(list.init->Some_0)
    &&& forall|i: int|
        0 <= i < list.segments.len() ==> clean_link((#[trigger] list.segments[i]).url)
            && seconds::settled(list.segments[i].duration)
}

/// The link between the quotes of `URI="..."`.
proof fn lemma_quoted(uri: Seq<char>)
    requires
        !uri.contains('"'),
    ensures
        playlist::attribute_in("URI"@ + seq!['=', '"'] + uri + seq!['"'], "URI"@) == Some(uri),
{
    let mark = "URI"@ + seq!['=', '"'];
    let quoted = uri + seq!['"'];
    let rest = mark + uri + seq!['"'];
    assert(rest =~= mark + quoted);
    lemma_marked(mark, quoted);
    assert(text::place(rest, mark) == Some(0int));
    assert(quoted[uri.len() as int] == '"');
    assert forall|k: int| 0 <= k < uri.len() implies quoted[k] != '"' by {
        assert(quoted[k] == uri[k]);
    }
    text::lemma_first_is(quoted, '"', uri.len() as int);
    assert(quoted.contains('"'));
    assert(text::head(quoted, '"') =~= uri);
}

proof fn lemma_map_line(p: Progress, uri: Seq<char>)
    requires
        quotable_link(uri),
    ensures
        ({
            let line = "#EXT-X-MAP:URI=\""@ + uri + seq!['"'];
            &&& playlist::with_line(p, line) == Progress {
                list: PlaylistView { init: Some(uri), ..p.list },
                ..p
            }
            &&& !line.contains('\n')
            &&& text::trim(line) == line
            &&& line.len() > 0
        }),
{
    reveal_strlit("#EXT-X-VERSION:");
    reveal_strlit("#EXT-X-TARGETDURATION:");
    reveal_strlit("#EXT-X-MAP:");
    reveal_strlit("#EXT-X-MAP:URI=\"");
    reveal_strlit("URI");
    let line = "#EXT-X-MAP:URI=\""@ + uri + seq!['"'];
    lemma_not_begins(line, "#EXT-X-VERSION:"@, 7);
    lemma_not_begins(line, "#EXT-X-TARGETDURATION:"@, 7);
    let rest = "URI"@ + seq!['=', '"'] + uri + seq!['"'];
    assert(line =~= "#EXT-X-MAP:"@ + rest);
    lemma_marked("#EXT-X-MAP:"@, rest);
    lemma_quoted(uri);
    assert forall|i: int| 0 <= i < line.len() implies line[i] != '\n' by {
        if 16 <= i < 16 + uri.len() {
            assert(line[i] == uri[i - 16]);
        }
    }
    lemma_trim_keeps(line);
}

proof fn lemma_link_line(p: Progress, u: Seq<char>)
    requires
        clean_link(u),
        p.duration is Some,
    ensures
        playlist::with_line(p, u) == (Progress {
            list: PlaylistView {
                segments: p.list.segments.push(
                    SegmentView { duration: p.duration->Some_0, url: u, discontinuity: p.cut },
                ),
                ..p.list
            },
            duration: None,
            cut: false,
        }),
{
    reveal_strlit("#EXT-X-VERSION:");
    reveal_strlit("#EXT-X-TARGETDURATION:");
    reveal_strlit("#EXT-X-MAP:");
    reveal_strlit("#EXTINF:");
    reveal_strlit("#EXT-X-DISCONTINUITY");
    reveal_strlit("#EXT-X-ENDLIST");
    lemma_not_begins(u, "#EXT-X-VERSION:"@, 0);
    lemma_not_begins(u, "#EXT-X-TARGETDURATION:"@, 0);
    lemma_not_begins(u, "#EXT-X-MAP:"@, 0);
    lemma_not_begins(u, "#EXTINF:"@, 0);
    assert("#EXT-X-DISCONTINUITY"@[0] == '#');
    assert("#EXT-X-ENDLIST"@[0] == '#');
}

proof fn lemma_duration_line(p: Progress, d: Seconds)
    requires
        seconds::settled(d),
    ensures
        ({
            let line = "#EXTINF:"@ + seconds::written(d) + seq![','];
            &&& playlist::with_line(p, line) == Progress { duration: Some(d), ..p }
            &&& !line.contains('\n')
            &&& text::trim(line) == line
            &&& line.len() > 0
        }),
{
    reveal_strlit("#EXT-X-VERSION:");
    reveal_strlit("#EXT-X-TARGETDURATION:");
    reveal_strlit("#EXT-X-MAP:");
    reveal_strlit("#EXTINF:");
    let t = seconds::written(d);
    let rest = t + seq![','];
    let line = "#EXTINF:"@ + t + seq![','];
    assert(line =~= "#EXTINF:"@ + rest);
    lemma_duration_reads_back(d);
    lemma_not_begins(line, "#EXT-X-VERSION:"@, 4);
    lemma_not_begins(line, "#EXT-X-TARGETDURATION:"@, 4);
    lemma_not_begins(line, "#EXT-X-MAP:"@, 4);
    lemma_marked("#EXTINF:"@, rest);
    assert forall|k: int| 0 <= k < t.len() implies rest[k] != ',' by {
        assert(rest[k] == t[k]);
    }
    text::lemma_first_is(rest, ',', t.len() as int);
    assert(text::head(rest, ',') =~= t);
    assert forall|i: int| 0 <= i < line.len() implies line[i] != '\n' by {
        if 8 <= i < 8 + t.len() {
            assert(line[i] == t[i - 8]);
        }
    }
    lemma_trim_keeps(line);
}

proof fn lemma_cut_line(p: Progress)
    ensures
        playlist::with_line(p, "#EXT-X-DISCONTINUITY"@) == (Progress { cut: true, ..p }),
        !("#EXT-X-DISCONTINUITY"@).contains('\n'),
        text::trim("#EXT-X-DISCONTINUITY"@) == "#EXT-X-DISCONTINUITY"@,
        "#EXT-X-DISCONTINUITY"@.len() > 0,
{
    reveal_strlit("#EXT-X-VERSION:");
    reveal_strlit("#EXT-X-TARGETDURATION:");
    reveal_strlit("#EXT-X-MAP:");
    reveal_strlit("#EXTINF:");
    reveal_strlit("#EXT-X-DISCONTINUITY");
    let line = "#EXT-X-DISCONTINUITY"@;
    lemma_not_begins(line, "#EXT-X-VERSION:"@, 7);
    lemma_not_begins(line, "#EXT-X-TARGETDURATION:"@, 7);
    lemma_not_begins(line, "#EXT-X-MAP:"@, 7);
    lemma_not_begins(line, "#EXTINF:"@, 4);
    lemma_trim_keeps(line);
}

proof fn lemma_end_line(p: Progress)
    ensures
        playlist::with_line(p, "#EXT-X-ENDLIST"@) == (Progress {
            list: PlaylistView { ended: true, ..p.list },
            ..p
        }),
        !("#EXT-X-ENDLIST"@).contains('\n'),
        text::trim("#EXT-X-ENDLIST"@) == "#EXT-X-ENDLIST"@,
        "#EXT-X-ENDLIST"@.len() > 0,
{
    reveal_strlit("#EXT-X-VERSION:");
    reveal_strlit("#EXT-X-TARGETDURATION:");
    reveal_strlit("#EXT-X-MAP:");
    reveal_strlit("#EXTINF:");
    reveal_strlit("#EXT-X-DISCONTINUITY");
    reveal_strlit("#EXT-X-ENDLIST");
    let line = "#EXT-X-ENDLIST"@;
    lemma_not_begins(line, "#EXT-X-VERSION:"@, 7);
    lemma_not_begins(line, "#EXT-X-TARGETDURATION:"@, 7);
    lemma_not_begins(line, "#EXT-X-MAP:"@, 7);
    lemma_not_begins(line, "#EXTINF:"@, 4);
    lemma_trim_keeps(line);
}

// ── Whole texts ──────────────────────────────────────────────────────

proof fn lemma_run_segment(p: Progress, s: SegmentView, rest: Seq<char>)
    requires
        clean_link(s.url),
        seconds::settled(s.duration),
        p.duration is None,
        !p.cut,
    ensures
        run(p, playlist::segment_lines(s) + rest) == run(
            (Progress {
                list: PlaylistView { segments: p.list.segments.push(s), ..p.list },
                duration: None,
                cut: false,
            }),
            rest,
        ),
{
    reveal_strlit("#EXT-X-DISCONTINUITY\n");
    reveal_strlit("#EXT-X-DISCONTINUITY");
    reveal_strlit(",\n");
    reveal_strlit("\n");
    let t = seconds::written(s.duration);
    let timed = "#EXTINF:"@ + t + seq![','];
    let behind_link = rest;
    let behind_time = s.url + seq!['\n'] + rest;
    let behind_cut = timed + seq!['\n'] + behind_time;
    let q = if s.discontinuity {
        Progress { cut: true, ..p }
    } else {
        p
    };
    if s.discontinuity {
        lemma_cut_line(p);
        lemma_run_line(p, "#EXT-X-DISCONTINUITY"@, behind_cut);
        assert("#EXT-X-DISCONTINUITY\n"@ =~= "#EXT-X-DISCONTINUITY"@ + seq!['\n']);
        assert(playlist::segment_lines(s) + rest =~= "#EXT-X-DISCONTINUITY"@ + seq!['\n']
            + behind_cut);
    } else {
        assert(playlist::segment_lines(s) + rest =~= behind_cut);
    }
    lemma_duration_line(q, s.duration);
    lemma_run_line(q, timed, behind_time);
    let r = Progress { duration: Some(s.duration), ..q };
    lemma_link_line(r, s.url);
    lemma_trim_keeps(s.url);
    lemma_run_line(r, s.url, behind_link);
}

proof fn lemma_run_segments(p: Progress, segments: Seq<SegmentView>, from: int, rest: Seq<char>)
    requires
        0 <= from <= segments.len(),
        p.duration is None,
        !p.cut,
        forall|i: int|
            from <= i < segments.len() ==> clean_link((#[trigger] segments[i]).url)
                && seconds::settled(segments[i].duration),
    ensures
        run(
            p,
            playlist::lines_between(segments, from, segments.len() as int) + rest,
        ) == run(
            (Progress {
                list: PlaylistView {
                    segments: p.list.segments + segments.skip(from),
                    ..p.list
                },
                ..p
            }),
            rest,
        ),
    decreases segments.len() - from,
{
    let n = segments.len() as int;
    if from == n {
        assert(playlist::lines_between(segments, from, n) + rest =~= rest);
        assert(p.list.segments + segments.skip(from) =~= p.list.segments);
    } else {
        let s = segments[from];
        let behind = playlist::lines_between(segments, from + 1, n) + rest;
        playlist::lemma_lines_join(segments, from, from + 1, n);
        assert(playlist::lines_between(segments, from, from) =~= Seq::<char>::empty());
        assert(playlist::lines_between(segments, from, from + 1) =~= playlist::segment_lines(s));
        assert(playlist::lines_between(segments, from, n) + rest =~= playlist::segment_lines(s)
            + behind);
        lemma_run_segment(p, s, behind);
        let q = Progress {
            list: PlaylistView { segments: p.list.segments.push(s), ..p.list },
            duration: None,
            cut: false,
        };
        lemma_run_segments(q, segments, from + 1, rest);
        assert(q.list.segments + segments.skip(from + 1) =~= p.list.segments + segments.skip(from));
    }
}

proof fn lemma_run_tail(p: Progress, list: PlaylistView, from: int)
    requires
        0 <= from <= list.segments.len(),
        p.duration is None,
        !p.cut,
        writable(list),
        !p.list.ended,
    ensures
        run(p, playlist::tail_of(list, from)).list == (PlaylistView {
            segments: p.list.segments + list.segments.skip(from),
            ended: list.ended,
            ..p.list
        }),
{
    let rest = playlist::end_line(list.ended);
    lemma_run_segments(p, list.segments, from, rest);
    let q = Progress {
        list: PlaylistView { segments: p.list.segments + list.segments.skip(from), ..p.list },
        ..p
    };
    if list.ended {
        reveal_strlit("#EXT-X-ENDLIST\n");
        reveal_strlit("#EXT-X-ENDLIST");
        assert(rest =~= "#EXT-X-ENDLIST"@ + seq!['\n'] + Seq::<char>::empty());
        lemma_end_line(q);
        lemma_run_line(q, "#EXT-X-ENDLIST"@, Seq::empty());
        lemma_run_nothing(Progress { list: PlaylistView { ended: true, ..q.list }, ..q });
    } else {
        lemma_run_nothing(q);
    }
}

proof fn lemma_run_kind(p: Progress, ended: bool, rest: Seq<char>)
    ensures
        run(p, playlist::kind_line(ended) + rest) == run(p, rest),
{
    reveal_strlit("#EXT-X-PLAYLIST-TYPE:VOD\n");
    reveal_strlit("#EXT-X-PLAYLIST-TYPE:EVENT\n");
    let whole = playlist::kind_line(ended);
    let line = whole.drop_last();
    assert(whole =~= line + seq!['\n']);
    lemma_passed_over(p, line);
    lemma_trim_keeps(line);
    lemma_run_line(p, line, rest);
}

proof fn lemma_run_init(p: Progress, init: Option<Seq<char>>, rest: Seq<char>)
    requires
        init is Some ==> quotable_link(init->Some_0),
        p.list.init is None,
    ensures
        run(p, playlist::init_line(init) + rest) == run(
            (Progress { list: PlaylistView { init, ..p.list }, ..p }),
            rest,
        ),
{
    match init {
        Some(uri) => {
            reveal_strlit("\"\n");
            let line = "#EXT-X-MAP:URI=\""@ + uri + seq!['"'];
            assert(playlist::init_line(init) + rest =~= line + seq!['\n'] + rest);
            lemma_map_line(p, uri);
            lemma_run_line(p, line, rest);
        },
        None => {
            assert(playlist::init_line(init) + rest =~= rest);
        },
    }
}

/// The number behind a tag.
spec fn tagged(tag: Seq<char>, n: nat) -> Seq<char> {
    tag + text::decimal(n)
}

/// The lines behind the first of a playlist written from `first` on, up to the
/// one that says what kind it is.
spec fn below_first(list: PlaylistView, first: nat) -> Seq<char> {
    let nl = seq!['\n'];
    let rest = playlist::kind_line(list.ended) + (playlist::init_line(list.init)
        + playlist::tail_of(list, first as int));
    tagged("#EXT-X-VERSION:"@, list.version as nat) + nl + (tagged(
        "#EXT-X-TARGETDURATION:"@,
        list.target_duration as nat,
    ) + nl + (tagged("#EXT-X-MEDIA-SEQUENCE:"@, first) + nl + rest))
}

#[verifier::spinoff_prover]
proof fn lemma_rendered_lines(list: PlaylistView, first: nat)
    ensures
        playlist::rendered(list, first) == "#EXTM3U"@ + seq!['\n'] + below_first(list, first),
{
    reveal_strlit("#EXTM3U");
    reveal_strlit("#EXT-X-VERSION:");
    reveal_strlit("#EXT-X-TARGETDURATION:");
    reveal_strlit("#EXT-X-MEDIA-SEQUENCE:");
    reveal_strlit("#EXTM3U\n#EXT-X-VERSION:");
    reveal_strlit("\n#EXT-X-TARGETDURATION:");
    reveal_strlit("\n#EXT-X-MEDIA-SEQUENCE:");
    reveal_strlit("\n");
    let nl = seq!['\n'];
    assert("#EXTM3U\n#EXT-X-VERSION:"@ =~= "#EXTM3U"@ + nl + "#EXT-X-VERSION:"@);
    assert("\n#EXT-X-TARGETDURATION:"@ =~= nl + "#EXT-X-TARGETDURATION:"@);
    assert("\n#EXT-X-MEDIA-SEQUENCE:"@ =~= nl + "#EXT-X-MEDIA-SEQUENCE:"@);
    assert("\n"@ =~= nl);
    assert(playlist::rendered(list, first) =~= "#EXTM3U"@ + nl + below_first(list, first));
}

proof fn lemma_starts_as_a_playlist(rest: Seq<char>)
    ensures
        text::begins(text::trim_start("#EXTM3U"@ + seq!['\n'] + rest), "#EXTM3U"@),
{
    reveal_strlit("#EXTM3U");
    let body = "#EXTM3U"@ + seq!['\n'] + rest;
    assert(body[0] == '#');
    assert(text::trim_start(body) == body);
    assert(body.take(7) =~= "#EXTM3U"@);
}

/// What was written reads back: a playlist written from any segment on is read
/// as the same list from that segment on.
#[verifier::spinoff_prover]
pub proof fn law_a_rewritten_playlist_reads_back(list: PlaylistView, first: nat)
    requires
        writable(list),
        first < list.segments.len(),
    ensures
        playlist::parsed(list.url, playlist::rendered(list, first)) == Ok::<
            PlaylistView,
            Seq<char>,
        >(PlaylistView { segments: list.segments.skip(first as int), ..list }),
{
    let nl = seq!['\n'];
    let version = tagged("#EXT-X-VERSION:"@, list.version as nat);
    let target = tagged("#EXT-X-TARGETDURATION:"@, list.target_duration as nat);
    let sequence = tagged("#EXT-X-MEDIA-SEQUENCE:"@, first);
    let r5 = playlist::tail_of(list, first as int);
    let r4 = playlist::init_line(list.init) + r5;
    let r3 = playlist::kind_line(list.ended) + r4;
    let r2 = sequence + nl + r3;
    let r1 = target + nl + r2;
    let r0 = version + nl + r1;
    lemma_rendered_lines(list, first);
    lemma_starts_as_a_playlist(r0);
    let p0 = playlist::unread(list.url);
    lemma_first_line(p0);
    lemma_run_line(p0, "#EXTM3U"@, r0);
    lemma_version_line(p0, list.version);
    lemma_run_line(p0, version, r1);
    let p1 = Progress { list: PlaylistView { version: list.version, ..p0.list }, ..p0 };
    lemma_target_line(p1, list.target_duration);
    lemma_run_line(p1, target, r2);
    let p2 = Progress {
        list: PlaylistView { target_duration: list.target_duration, ..p1.list },
        ..p1
    };
    lemma_sequence_line(p2, first);
    lemma_run_line(p2, sequence, r3);
    lemma_run_kind(p2, list.ended, r4);
    lemma_run_init(p2, list.init, r5);
    let p3 = Progress { list: PlaylistView { init: list.init, ..p2.list }, ..p2 };
    lemma_run_tail(p3, list, first as int);
    assert(p3.list.segments + list.segments.skip(first as int) =~= list.segments.skip(
        first as int,
    ));
}

// ── What was read can be written ─────────────────────────────────────

/// A link that a playlist can be read from: clean, with no quote in it.
pub open spec fn clean_base(url: Seq<char>) -> bool {
    clean_link(url) && !url.contains('"')
}

proof fn lemma_trim_parts(s: Seq<char>)
    ensures
        text::trim(s).len() > 0 ==> !text::is_space(text::trim(s)[0]) && !text::is_space(
            text::trim(s).last(),
        ),
        forall|c: char| #[trigger] text::trim(s).contains(c) ==> s.contains(c),
{
    let t = text::trim_start(s);
    lemma_trim_start_parts(s);
    lemma_trim_end_parts(t);
}

proof fn lemma_trim_start_parts(s: Seq<char>)
    ensures
        text::trim_start(s).len() > 0 ==> !text::is_space(text::trim_start(s)[0]),
        forall|c: char| #[trigger] text::trim_start(s).contains(c) ==> s.contains(c),
    decreases s.len(),
{
    if s.len() > 0 && text::is_space(s[0]) {
        let t = s.drop_first();
        lemma_trim_start_parts(t);
        assert forall|c: char| #[trigger] text::trim_start(s).contains(c) implies s.contains(c) by {
            assert(t.contains(c));
            let i = choose|i: int| 0 <= i < t.len() && t[i] == c;
            assert(s[i + 1] == c);
        }
    }
}

proof fn lemma_trim_end_parts(s: Seq<char>)
    ensures
        text::trim_end(s).len() > 0 ==> !text::is_space(text::trim_end(s).last())
            && text::trim_end(s)[0] == s[0],
        forall|c: char| #[trigger] text::trim_end(s).contains(c) ==> s.contains(c),
    decreases s.len(),
{
    if s.len() > 0 && text::is_space(s.last()) {
        let t = s.drop_last();
        lemma_trim_end_parts(t);
        assert forall|c: char| #[trigger] text::trim_end(s).contains(c) implies s.contains(c) by {
            assert(t.contains(c));
            let i = choose|i: int| 0 <= i < t.len() && t[i] == c;
            assert(s[i] == c);
        }
    }
}

proof fn lemma_pieces_hold_no_cut(s: Seq<char>, c: char)
    ensures
        forall|i: int| 0 <= i < text::split(s, c).len() ==> !(#[trigger] text::split(s, c)[i]).contains(c),
    decreases s.len(),
{
    text::lemma_first(s, c);
    let n = text::first(s, c);
    if n < s.len() {
        let rest = text::tail(s, c);
        lemma_pieces_hold_no_cut(rest, c);
        let front = text::head(s, c);
        assert(!front.contains(c)) by {
            if front.contains(c) {
                let k = choose|k: int| 0 <= k < front.len() && front[k] == c;
                assert(s[k] == c);
            }
        }
        assert forall|i: int| 0 <= i < text::split(s, c).len() implies !(#[trigger] text::split(
            s,
            c,
        )[i]).contains(c) by {
            if i > 0 {
                assert(text::split(s, c)[i] == text::split(rest, c)[i - 1]);
            }
        }
    }
}

/// A line with something on it and nothing around it.
spec fn clean_line(line: Seq<char>) -> bool {
    line.len() > 0 && !text::is_space(line[0]) && !text::is_space(line.last()) && !line.contains(
        '\n',
    )
}

proof fn lemma_kept_are_clean(list: Seq<Seq<char>>)
    requires
        forall|i: int| 0 <= i < list.len() ==> !(#[trigger] list[i]).contains('\n'),
    ensures
        forall|i: int|
            0 <= i < playlist::kept_lines(list).len() ==> clean_line(
                #[trigger] playlist::kept_lines(list)[i],
            ),
    decreases list.len(),
{
    if list.len() > 0 {
        let front = list.drop_last();
        assert forall|i: int| 0 <= i < front.len() implies !(#[trigger] front[i]).contains('\n') by {
            assert(!list[i].contains('\n'));
        }
        lemma_kept_are_clean(front);
        lemma_trim_parts(list.last());
        assert(!list[list.len() - 1].contains('\n'));
        let kept = playlist::kept_lines(list);
        let before = playlist::kept_lines(front);
        assert forall|i: int| 0 <= i < kept.len() implies clean_line(#[trigger] kept[i]) by {
            if i < before.len() {
                assert(kept[i] == before[i]);
            }
        }
    }
}

proof fn lemma_occurs_in_front(a: Seq<char>, b: Seq<char>, p: Seq<char>, i: int)
    requires
        0 <= i,
        i + p.len() <= a.len(),
        text::begins(a.skip(i), p),
    ensures
        text::occurs(a + b, p),
{
    let s = (a + b).skip(i);
    assert(s.take(p.len() as int) =~= a.skip(i).take(p.len() as int));
    assert(text::begins(s, p));
}

/// A reference made absolute against a clean base is a link: it has a scheme,
/// it begins where the base or the reference begins, and it ends where the
/// reference ends, if that is not empty.
proof fn lemma_absolute_is_a_link(base: Seq<char>, reference: Seq<char>)
    requires
        clean_base(base),
        !reference.contains('\n'),
    ensures
        ({
            let u = playlist::made_absolute(base, reference);
            &&& u.len() > 0
            &&& text::occurs(u, "://"@)
            &&& !u.contains('\n')
            &&& !reference.contains('"') ==> !u.contains('"')
            &&& u[0] == base[0] || (reference.len() > 0 && u[0] == reference[0])
            &&& reference.len() > 0 ==> u.last() == reference.last()
        }),
{
    reveal_strlit("://");
    let mark = "://"@;
    let u = playlist::made_absolute(base, reference);
    text::lemma_place(base, mark);
    let i = text::place(base, mark)->Some_0;
    assert(text::begins(base.skip(i), mark));
    if text::occurs(reference, mark) {
        let k = choose|k: int| 0 <= k <= reference.len() && #[trigger] text::begins(
            reference.skip(k),
            mark,
        );
        assert(reference.len() > 0);
    } else {
        assert(base[i + 1] == '/' && base[i + 2] == '/') by {
            assert(base.skip(i).take(3)[1] == mark[1]);
            assert(base.skip(i).take(3)[2] == mark[2]);
        }
        let front = if reference.len() > 0 && reference[0] == '/' {
            playlist::origin(base)
        } else {
            base.take(text::last_place(base, '/') + 1)
        };
        text::lemma_last_place(base, '/');
        text::lemma_first(base.skip(i + 3), '/');
        if text::last_place(base, '/') < i + 2 {
            assert(base[i + 2] != '/');
        }
        assert(front.len() >= i + 3);
        assert(u =~= front + reference);
        assert(front.skip(i).take(3) =~= base.skip(i).take(3));
        lemma_occurs_in_front(front, reference, mark, i);
        assert forall|k: int| 0 <= k < u.len() implies #[trigger] u[k] != '\n' && (
        !reference.contains('"') ==> u[k] != '"') by {
            if k < front.len() {
                assert(u[k] == base[k]);
            } else {
                assert(u[k] == reference[k - front.len()]);
            }
        }
        assert(u[0] == base[0]);
    }
}

/// What has been read of a playlist at a clean base holds only clean links and
/// durations that were read.
spec fn clean_progress(p: Progress, url: Seq<char>) -> bool {
    &&& p.list.url == url
    &&& p.list.init is Some ==> quotable_link(p.list.init->Some_0)
    &&& p.duration is Some ==> seconds::settled(p.duration->Some_0)
    &&& forall|i: int|
        0 <= i < p.list.segments.len() ==> clean_link((#[trigger] p.list.segments[i]).url)
            && seconds::settled(p.list.segments[i].duration)
}

proof fn lemma_line_keeps_clean(p: Progress, url: Seq<char>, line: Seq<char>)
    requires
        clean_base(url),
        clean_progress(p, url),
        clean_line(line),
    ensures
        clean_progress(playlist::with_line(p, line), url),
{
    let q = playlist::with_line(p, line);
    if text::begins(line, "#EXT-X-VERSION:"@) || text::begins(line, "#EXT-X-TARGETDURATION:"@) {
    } else if text::begins(line, "#EXT-X-MAP:"@) {
        let rest = line.skip("#EXT-X-MAP:"@.len() as int);
        if let Some(uri) = playlist::attribute_in(rest, "URI"@) {
            let mark = "URI"@ + seq!['=', '"'];
            text::lemma_place(rest, mark);
            let behind = text::past(rest, mark)->Some_0;
            text::lemma_first(behind, '"');
            assert forall|k: int| 0 <= k < uri.len() implies #[trigger] uri[k] != '\n' && uri[k]
                != '"' by {
                assert(uri[k] == behind[k]);
                let at = text::place(rest, mark)->Some_0 + mark.len() + k;
                assert(behind[k] == rest[at]);
                assert(rest[at] == line["#EXT-X-MAP:"@.len() + at]);
                assert(line.contains(uri[k]));
            }
            lemma_absolute_is_a_link(url, uri);
        }
    } else if line[0] != '#' && p.duration is Some {
        reveal_strlit("#EXTINF:");
        reveal_strlit("#EXT-X-DISCONTINUITY");
        reveal_strlit("#EXT-X-ENDLIST");
        lemma_not_begins(line, "#EXTINF:"@, 0);
        assert("#EXT-X-DISCONTINUITY"@[0] == '#');
        assert("#EXT-X-ENDLIST"@[0] == '#');
        lemma_absolute_is_a_link(url, line);
        let u = playlist::made_absolute(url, line);
        assert(clean_link(u));
        assert forall|i: int| 0 <= i < q.list.segments.len() implies clean_link(
            (#[trigger] q.list.segments[i]).url,
        ) && seconds::settled(q.list.segments[i].duration) by {
            if i < p.list.segments.len() {
                assert(q.list.segments[i] == p.list.segments[i]);
            }
        }
    } else {
        if text::begins(line, "#EXTINF:"@) {
            let rest = line.skip("#EXTINF:"@.len() as int);
            seconds::law_a_duration_is_settled(text::trim(text::head(rest, ',')));
        }
        assert(q.list.segments == p.list.segments);
    }
}

proof fn lemma_lines_keep_clean(p: Progress, url: Seq<char>, lines: Seq<Seq<char>>)
    requires
        clean_base(url),
        clean_progress(p, url),
        forall|i: int| 0 <= i < lines.len() ==> clean_line(#[trigger] lines[i]),
    ensures
        clean_progress(playlist::with_lines(p, lines), url),
    decreases lines.len(),
{
    if lines.len() > 0 {
        let front = lines.drop_last();
        assert forall|i: int| 0 <= i < front.len() implies clean_line(#[trigger] front[i]) by {
            assert(clean_line(lines[i]));
        }
        lemma_lines_keep_clean(p, url, front);
        assert(clean_line(lines[lines.len() - 1]));
        lemma_line_keeps_clean(playlist::with_lines(p, front), url, lines.last());
    }
}

/// Every playlist that was read from a clean address can be written, and reads
/// back as itself.
pub proof fn law_what_was_read_can_be_written(url: Seq<char>, body: Seq<char>)
    requires
        clean_base(url),
        playlist::parsed(url, body) is Ok,
    ensures
        writable(playlist::parsed(url, body)->Ok_0),
        playlist::parsed(url, playlist::rendered(playlist::parsed(url, body)->Ok_0, 0))
            == playlist::parsed(url, body),
{
    let rows = text::split(body, '\n');
    let list = playlist::parsed(url, body)->Ok_0;
    lemma_pieces_hold_no_cut(body, '\n');
    lemma_kept_are_clean(rows);
    lemma_lines_keep_clean(playlist::unread(url), url, playlist::kept_lines(rows));
    assert(writable(list));
    law_a_rewritten_playlist_reads_back(list, 0);
    assert(list.segments.skip(0) =~= list.segments);
}

} // verus!
