//! A recording's HLS playlist, read by the app rather than left to the player.
//!
//! To reach a moment of a recording the app writes a playlist that starts at
//! the segment holding that moment and opens the player on that. A broadcast
//! still being recorded has a playlist with no end marker that grows; the
//! local copy is kept growing the same way, by appending.
//!
//! Times are counted in thousandths of a second.

use crate::seconds;
use crate::seconds::Seconds;
use crate::span;
use crate::span::{Length, Span, Sum, Total};
use crate::text;
use vstd::prelude::*;
use vstd::slice::*;
use vstd::string::*;

verus! {

/// One segment of a recording.
#[derive(Debug, Clone, PartialEq, Eq)]
pub struct Segment {
    pub duration: Seconds,
    /// Absolute, whatever the playlist wrote.
    pub url: String,
    /// A cut in the recording before this segment.
    pub discontinuity: bool,
}

/// A recording's playlist: where its pieces are and how long each is.
#[derive(Debug, Clone, PartialEq, Eq)]
pub struct Playlist {
    /// Where this came from, so it can be asked for again while it grows.
    pub url: String,
    pub version: u32,
    /// Seconds.
    pub target_duration: u32,
    /// The initialisation segment of a fragmented-MP4 recording, absolute.
    pub init: Option<String>,
    pub segments: Vec<Segment>,
    /// Whether the recording is complete.
    pub ended: bool,
}

/// A [`Segment`] with its text as a sequence.
pub struct SegmentView {
    pub duration: Seconds,
    pub url: Seq<char>,
    pub discontinuity: bool,
}

/// A [`Playlist`] with its texts as sequences.
pub struct PlaylistView {
    pub url: Seq<char>,
    pub version: u32,
    pub target_duration: u32,
    pub init: Option<Seq<char>>,
    pub segments: Seq<SegmentView>,
    pub ended: bool,
}

impl View for Segment {
    type V = SegmentView;

    open spec fn view(&self) -> SegmentView {
        SegmentView {
            duration: self.duration,
            url: self.url@,
            discontinuity: self.discontinuity,
        }
    }
}

/// The segments of a list.
pub open spec fn segment_views(list: Seq<Segment>) -> Seq<SegmentView> {
    Seq::new(list.len(), |i: int| list[i]@)
}

impl View for Playlist {
    type V = PlaylistView;

    open spec fn view(&self) -> PlaylistView {
        PlaylistView {
            url: self.url@,
            version: self.version,
            target_duration: self.target_duration,
            init: match self.init {
                Some(init) => Some(init@),
                None => None,
            },
            segments: segment_views(self.segments@),
            ended: self.ended,
        }
    }
}

// ── References ───────────────────────────────────────────────────────

/// The value of `KEY="..."` in an attribute list.
pub open spec fn attribute_in(list: Seq<char>, key: Seq<char>) -> Option<Seq<char>> {
    match text::past(list, key + seq!['=', '"']) {
        Some(rest) => if rest.contains('"') {
            Some(text::head(rest, '"'))
        } else {
            None
        },
        None => None,
    }
}

fn attribute_of(list: &[char], key: &str) -> (r: Option<Vec<char>>)
    ensures
        (match r {
            Some(v) => attribute_in(list@, key@) == Some(v@),
            None => attribute_in(list@, key@) is None,
        }),
{
    let mut mark = text::chars_of(key);
    mark.push('=');
    mark.push('"');
    assert(mark@ =~= key@ + seq!['=', '"']);
    match text::place_of(list, mark.as_slice()) {
        Some(i) => {
            let n: usize = list.len();
            let rest = slice_subrange(list, i + mark.len(), n);
            assert(rest@ =~= list@.skip(i + mark@.len()));
            if text::holds(rest, '"') {
                Some(slice_to_vec(text::before(rest, '"')))
            } else {
                None
            }
        },
        None => None,
    }
}

/// The value of `KEY="..."` in an attribute list.
pub fn attribute(list: &str, key: &str) -> (r: Option<String>)
    ensures
        (match r {
            Some(v) => attribute_in(list@, key@) == Some(v@),
            None => attribute_in(list@, key@) is None,
        }),
{
    let chars = text::chars_of(list);
    match attribute_of(chars.as_slice(), key) {
        Some(v) => Some(text::string_of(v.as_slice())),
        None => None,
    }
}

/// The scheme and host of a link, or as much of it as there is.
pub open spec fn origin(base: Seq<char>) -> Seq<char> {
    let from = match text::place(base, "://"@) {
        Some(i) => i + 3,
        None => 0,
    };
    base.take(from + text::first(base.skip(from), '/'))
}

/// `reference` as written in a playlist at `base`, made absolute.
pub open spec fn made_absolute(base: Seq<char>, reference: Seq<char>) -> Seq<char> {
    if text::occurs(reference, "://"@) {
        reference
    } else if reference.len() > 0 && reference[0] == '/' {
        origin(base) + reference
    } else if text::last_place(base, '/') >= 0 {
        base.take(text::last_place(base, '/') + 1) + reference
    } else {
        reference
    }
}

fn appended(a: &[char], b: &[char]) -> (r: String)
    ensures
        r@ == a@ + b@,
{
    let mut out = text::string_of(a);
    let tail = text::string_of(b);
    out.append(tail.as_str());
    out
}

fn absolute_of(base: &[char], reference: &[char]) -> (r: String)
    ensures
        r@ == made_absolute(base@, reference@),
{
    let mark = text::chars_of("://");
    let n: usize = base.len();
    proof {
        reveal_strlit("://");
    }
    if text::occurs_in(reference, mark.as_slice()) {
        return text::string_of(reference);
    }
    if reference.len() > 0 && reference[0] == '/' {
        let from: usize = match text::place_of(base, mark.as_slice()) {
            Some(i) => i + 3,
            None => 0,
        };
        let rest = slice_subrange(base, from, n);
        assert(rest@ =~= base@.skip(from as int));
        let host = slice_subrange(base, 0, from + text::find(rest, '/'));
        assert(host@ =~= origin(base@));
        return appended(host, reference);
    }
    match text::last_place_of(base, '/') {
        Some(slash) => {
            let folder = slice_subrange(base, 0, slash + 1);
            assert(folder@ =~= base@.take(slash + 1));
            appended(folder, reference)
        },
        None => text::string_of(reference),
    }
}

/// `reference` as written in a playlist at `base`, made absolute.
pub fn absolute(base: &str, reference: &str) -> (r: String)
    ensures
        r@ == made_absolute(base@, reference@),
{
    let b = text::chars_of(base);
    let f = text::chars_of(reference);
    absolute_of(b.as_slice(), f.as_slice())
}

// ── Parsing ──────────────────────────────────────────────────────────

/// The lines that hold something, without the white space around them.
pub open spec fn kept_lines(list: Seq<Seq<char>>) -> Seq<Seq<char>>
    decreases list.len(),
{
    if list.len() == 0 {
        Seq::empty()
    } else if text::trim(list.last()).len() > 0 {
        kept_lines(list.drop_last()).push(text::trim(list.last()))
    } else {
        kept_lines(list.drop_last())
    }
}

/// What has been read so far: the list, the duration that the next segment
/// will have, and whether there is a cut before it.
pub struct Progress {
    pub list: PlaylistView,
    pub duration: Option<Seconds>,
    pub cut: bool,
}

/// A playlist of which nothing has been read.
pub open spec fn unread(url: Seq<char>) -> Progress {
    Progress {
        list: PlaylistView {
            url,
            version: 3,
            target_duration: 10,
            init: None,
            segments: Seq::empty(),
            ended: false,
        },
        duration: None,
        cut: false,
    }
}

/// A number between white space, or `otherwise`.
pub open spec fn number_or(s: Seq<char>, otherwise: u32) -> u32 {
    match text::unsigned(text::trim(s), u32::MAX as nat) {
        Some(n) => n as u32,
        None => otherwise,
    }
}

/// What one more line adds.
pub open spec fn with_line(p: Progress, line: Seq<char>) -> Progress {
    if text::begins(line, "#EXT-X-VERSION:"@) {
        let rest = line.skip("#EXT-X-VERSION:"@.len() as int);
        Progress { list: PlaylistView { version: number_or(rest, 3), ..p.list }, ..p }
    } else if text::begins(line, "#EXT-X-TARGETDURATION:"@) {
        let rest = line.skip("#EXT-X-TARGETDURATION:"@.len() as int);
        Progress { list: PlaylistView { target_duration: number_or(rest, 10), ..p.list }, ..p }
    } else if text::begins(line, "#EXT-X-MAP:"@) {
        match attribute_in(line.skip("#EXT-X-MAP:"@.len() as int), "URI"@) {
            Some(uri) => Progress {
                list: PlaylistView { init: Some(made_absolute(p.list.url, uri)), ..p.list },
                ..p
            },
            None => p,
        }
    } else if text::begins(line, "#EXTINF:"@) {
        let rest = line.skip("#EXTINF:"@.len() as int);
        Progress { duration: seconds::reading(text::trim(text::head(rest, ','))), ..p }
    } else if line == "#EXT-X-DISCONTINUITY"@ {
        Progress { cut: true, ..p }
    } else if line == "#EXT-X-ENDLIST"@ {
        Progress { list: PlaylistView { ended: true, ..p.list }, ..p }
    } else if line.len() > 0 && line[0] == '#' {
        p
    } else {
        match p.duration {
            Some(duration) => Progress {
                list: PlaylistView {
                    segments: p.list.segments.push(
                        SegmentView {
                            duration,
                            url: made_absolute(p.list.url, line),
                            discontinuity: p.cut,
                        },
                    ),
                    ..p.list
                },
                duration: None,
                cut: false,
            },
            None => p,
        }
    }
}

/// What a row of lines adds.
pub open spec fn with_lines(p: Progress, lines: Seq<Seq<char>>) -> Progress
    decreases lines.len(),
{
    if lines.len() == 0 {
        p
    } else {
        with_line(with_lines(p, lines.drop_last()), lines.last())
    }
}

/// What the playlist at `url` says, from its text.
pub open spec fn parsed(url: Seq<char>, body: Seq<char>) -> Result<PlaylistView, Seq<char>> {
    let list = with_lines(unread(url), kept_lines(text::split(body, '\n'))).list;
    if !text::begins(text::trim_start(body), "#EXTM3U"@) {
        Err("not an HLS playlist"@)
    } else if list.segments.len() == 0 {
        Err("the playlist lists no segments"@)
    } else {
        Ok(list)
    }
}

/// What stands behind `mark` in a line that begins with it.
fn behind_mark<'a>(line: &'a [char], mark: &str) -> (r: Option<&'a [char]>)
    ensures
        (match r {
            Some(rest) => text::begins(line@, mark@) && rest@ == line@.skip(mark@.len() as int),
            None => !text::begins(line@, mark@),
        }),
{
    let m = text::chars_of(mark);
    if text::begins_with(line, m.as_slice()) {
        let rest = slice_subrange(line, m.len(), line.len());
        assert(rest@ =~= line@.skip(mark@.len() as int));
        Some(rest)
    } else {
        None
    }
}

fn number_between(s: &[char], otherwise: u32) -> (r: u32)
    ensures
        r == number_or(s@, otherwise),
{
    match text::unsigned_of(text::trimmed(s), 0xFFFF_FFFF) {
        Some(n) => n as u32,
        None => otherwise,
    }
}

/// Where a reading of a playlist has got to.
struct Reader {
    list: Playlist,
    duration: Option<Seconds>,
    cut: bool,
}

impl View for Reader {
    type V = Progress;

    closed spec fn view(&self) -> Progress {
        Progress { list: self.list@, duration: self.duration, cut: self.cut }
    }
}

impl Reader {
    fn take_line(&mut self, base: &[char], line: &[char])
        requires
            base@ == old(self)@.list.url,
        ensures
            final(self)@ == with_line(old(self)@, line@),
            final(self)@.list.url == old(self)@.list.url,
    {
        if let Some(rest) = behind_mark(line, "#EXT-X-VERSION:") {
            self.list.version = number_between(rest, 3);
            return;
        }
        if let Some(rest) = behind_mark(line, "#EXT-X-TARGETDURATION:") {
            self.list.target_duration = number_between(rest, 10);
            return;
        }
        if let Some(rest) = behind_mark(line, "#EXT-X-MAP:") {
            if let Some(uri) = attribute_of(rest, "URI") {
                self.list.init = Some(absolute_of(base, uri.as_slice()));
            }
            return;
        }
        if let Some(rest) = behind_mark(line, "#EXTINF:") {
            self.duration = seconds::read(text::trimmed(text::before(rest, ',')));
            return;
        }
        if text::spells(line, "#EXT-X-DISCONTINUITY") {
            self.cut = true;
            return;
        }
        if text::spells(line, "#EXT-X-ENDLIST") {
            self.list.ended = true;
            return;
        }
        if line.len() > 0 && line[0] == '#' {
            return;
        }
        if let Some(duration) = self.duration {
            let ghost held = self.list.segments@;
            let segment = Segment {
                duration,
                url: absolute_of(base, line),
                discontinuity: self.cut,
            };
            self.list.segments.push(segment);
            self.duration = None;
            self.cut = false;
            assert(segment_views(self.list.segments@) =~= segment_views(held).push(segment@));
        }
    }
}

/// What a result of [`parse`] says, with its texts as sequences.
pub open spec fn read_as(r: Result<Playlist, String>) -> Result<PlaylistView, Seq<char>> {
    match r {
        Ok(list) => Ok(list@),
        Err(reason) => Err(reason@),
    }
}

/// Parse the playlist at `url` from its text. Segment and init URLs come out
/// absolute, resolved against `url`.
pub fn parse(url: &str, text: &str) -> (r: Result<Playlist, String>)
    ensures
        read_as(r) == parsed(url@, text@),
{
    let body = text::chars_of(text);
    let base = text::chars_of(url);
    let head = text::chars_of("#EXTM3U");
    if !text::begins_with(text::without_leading_space(body.as_slice()), head.as_slice()) {
        return Err("not an HLS playlist".to_owned());
    }
    let mut reader = Reader {
        list: Playlist {
            url: url.to_owned(),
            version: 3,
            target_duration: 10,
            init: None,
            segments: Vec::new(),
            ended: false,
        },
        duration: None,
        cut: false,
    };
    assert(reader@.list.segments =~= Seq::<SegmentView>::empty());
    let rows = text::split_at_each(body.as_slice(), '\n');
    let ghost all = text::pieces(rows@);
    let mut i: usize = 0;
    assert(kept_lines(all.take(0)) =~= Seq::<Seq<char>>::empty());
    while i < rows.len()
        invariant
            all == text::pieces(rows@),
            i <= rows@.len(),
            base@ == url@,
            reader@.list.url == url@,
            reader@ == with_lines(unread(url@), kept_lines(all.take(i as int))),
        decreases rows.len() - i,
    {
        let line = text::trimmed(rows[i].as_slice());
        proof {
            assert(all.take(i + 1).drop_last() =~= all.take(i as int));
            assert(all.take(i + 1).last() == rows@[i as int]@);
            let before = kept_lines(all.take(i as int));
            assert(before.push(line@).drop_last() =~= before);
        }
        if line.len() > 0 {
            reader.take_line(base.as_slice(), line);
        }
        i += 1;
    }
    assert(all.take(i as int) =~= all);
    if reader.list.segments.len() == 0 {
        return Err("the playlist lists no segments".to_owned());
    }
    Ok(reader.list)
}

/// What an answer to a request for the playlist at `url` comes to: an HTTP
/// error, a body that could not be read, or the playlist that it writes.
pub open spec fn answered(url: Seq<char>, status: u16, body: Result<Seq<char>, Seq<char>>) -> Result<
    PlaylistView,
    Seq<char>,
> {
    if status >= 400 {
        Err("the playlist answered HTTP "@ + text::decimal(status as nat))
    } else {
        match body {
            Ok(body) => parsed(url, body),
            Err(reason) => Err("could not read the playlist: "@ + reason),
        }
    }
}

/// Read the answer to a request for the playlist at `url`.
pub fn read_answer(url: &str, status: u16, body: Result<String, String>) -> (r: Result<
    Playlist,
    String,
>)
    ensures
        read_as(r) == answered(
            url@,
            status,
            match body {
                Ok(body) => Ok(body@),
                Err(reason) => Err(reason@),
            },
        ),
{
    if status >= 400 {
        let mut reason = "the playlist answered HTTP ".to_owned();
        text::push_decimal(&mut reason, status as u64);
        return Err(reason);
    }
    match body {
        Ok(body) => parse(url, body.as_str()),
        Err(cause) => {
            let mut reason = "could not read the playlist: ".to_owned();
            reason.append(cause.as_str());
            Err(reason)
        },
    }
}

// ── A playlist in use ────────────────────────────────────────────────

/// How long the first `n` segments are together.
pub open spec fn length_of(segments: Seq<SegmentView>, n: int) -> Total
    decreases n,
{
    if n <= 0 {
        Total::Finite(0)
    } else {
        span::plus(length_of(segments, n - 1), span::amount(segments[n - 1].duration))
    }
}

/// Whether `i` is the segment that holds the moment `at`: the first that ends
/// behind it.
pub open spec fn holds_moment(segments: Seq<SegmentView>, at: int, i: int) -> bool {
    &&& 0 <= i < segments.len()
    &&& span::is_before(at, length_of(segments, i + 1))
    &&& forall|k: int| 0 <= k < i ==> !span::is_before(at, #[trigger] length_of(segments, k + 1))
}

/// Which segment holds a moment, and how much comes before it: the last segment
/// for a moment that none holds.
pub open spec fn located(segments: Seq<SegmentView>, at: int, index: int, before: int) -> bool {
    let last = segments.len() - 1;
    if exists|i: int| holds_moment(segments, at, i) {
        holds_moment(segments, at, index) && length_of(segments, index) == Total::Finite(before)
    } else if last < 0 {
        index == 0 && before == 0
    } else {
        let up_to_last = span::plus(
            length_of(segments, last + 1),
            span::opposite(span::amount(segments[last].duration)),
        );
        index == last && span::at_least_nothing(up_to_last) == Total::Finite(before)
    }
}

/// The lines of one segment.
pub open spec fn segment_lines(s: SegmentView) -> Seq<char> {
    let cut = if s.discontinuity {
        "#EXT-X-DISCONTINUITY\n"@
    } else {
        Seq::<char>::empty()
    };
    cut + "#EXTINF:"@ + seconds::written(s.duration) + ",\n"@ + s.url + "\n"@
}

/// The lines of the segments from `from` up to `to`.
pub open spec fn lines_between(segments: Seq<SegmentView>, from: int, to: int) -> Seq<char>
    decreases to - from,
{
    if to <= from {
        Seq::empty()
    } else {
        lines_between(segments, from, to - 1) + segment_lines(segments[to - 1])
    }
}

/// The end marker, where the recording has one.
pub open spec fn end_line(ended: bool) -> Seq<char> {
    if ended {
        "#EXT-X-ENDLIST\n"@
    } else {
        Seq::empty()
    }
}

/// The segment lines from `from` on, and the end marker if there is one.
pub open spec fn tail_of(list: PlaylistView, from: int) -> Seq<char> {
    lines_between(list.segments, from, list.segments.len() as int) + end_line(list.ended)
}

/// The line that says whether a playlist is complete.
pub open spec fn kind_line(ended: bool) -> Seq<char> {
    if ended {
        "#EXT-X-PLAYLIST-TYPE:VOD\n"@
    } else {
        "#EXT-X-PLAYLIST-TYPE:EVENT\n"@
    }
}

/// The line that names the init segment, where there is one.
pub open spec fn init_line(init: Option<Seq<char>>) -> Seq<char> {
    match init {
        Some(uri) => "#EXT-X-MAP:URI=\""@ + uri + "\"\n"@,
        None => Seq::empty(),
    }
}

/// The lines above the segments, in a playlist that starts at `first`.
pub open spec fn head_of(list: PlaylistView, first: nat) -> Seq<char> {
    "#EXTM3U\n#EXT-X-VERSION:"@ + text::decimal(list.version as nat)
        + "\n#EXT-X-TARGETDURATION:"@ + text::decimal(list.target_duration as nat)
        + "\n#EXT-X-MEDIA-SEQUENCE:"@ + text::decimal(first) + "\n"@ + kind_line(list.ended)
        + init_line(list.init)
}

/// A playlist that starts at segment `first`, as the player should read it.
pub open spec fn rendered(list: PlaylistView, first: nat) -> Seq<char> {
    head_of(list, first) + tail_of(list, first as int)
}

/// A playlist that has taken a newer reading of itself.
pub open spec fn absorbed(list: PlaylistView, fresh: PlaylistView) -> PlaylistView {
    PlaylistView {
        segments: if fresh.segments.len() > list.segments.len() {
            list.segments + fresh.segments.skip(list.segments.len() as int)
        } else {
            list.segments
        },
        ended: list.ended || fresh.ended,
        ..list
    }
}

fn push_segment(out: &mut String, s: &Segment)
    ensures
        final(out)@ == old(out)@ + segment_lines(s@),
{
    if s.discontinuity {
        out.append("#EXT-X-DISCONTINUITY\n");
    }
    out.append("#EXTINF:");
    seconds::push(out, s.duration);
    out.append(",\n");
    out.append(s.url.as_str());
    out.append("\n");
    assert(out@ =~= old(out)@ + segment_lines(s@));
}

impl Playlist {
    /// How long the recording is, as far as this playlist knows.
    pub fn length(&self) -> (r: Length)
        ensures
            r@ == length_of(self@.segments, self@.segments.len() as int),
    {
        let mut sum = Sum::new();
        let mut i: usize = 0;
        while i < self.segments.len()
            invariant
                i <= self.segments@.len(),
                sum.total() == length_of(self@.segments, i as int),
                sum.within(i as int),
            decreases self.segments.len() - i,
        {
            assert(self@.segments[i as int] == self.segments@[i as int]@);
            sum = sum.with(self.segments[i].duration, i);
            i += 1;
        }
        sum.length()
    }

    /// The segment holding the moment `at`, and how much comes before it. A
    /// time past the end lands in the last segment, so a seek to the end of a
    /// finished recording finishes it rather than failing.
    pub fn segment_at(&self, at: i64) -> (r: (usize, Span))
        ensures
            located(self@.segments, at as int, r.0 as int, r.1.value()),
            forall|i: int| holds_moment(self@.segments, at as int, i) ==> r.0 == i,
    {
        let ghost list = self@.segments;
        let mut sum = Sum::new();
        let mut last = Length::Finite(Span::zero());
        let mut i: usize = 0;
        while i < self.segments.len()
            invariant
                list == self@.segments,
                i <= self.segments@.len(),
                sum.total() == length_of(list, i as int),
                sum.within(i as int),
                i > 0 ==> last@ == length_of(list, i - 1),
                forall|k: int|
                    0 <= k < i ==> !span::is_before(at as int, #[trigger] length_of(list, k + 1)),
            decreases self.segments.len() - i,
        {
            assert(list[i as int] == self.segments@[i as int]@);
            let more = sum.with(self.segments[i].duration, i);
            last = sum.length();
            assert(more.total() == length_of(list, i + 1));
            if more.length().follows(at) {
                proof {
                    assert(holds_moment(list, at as int, i as int));
                    lemma_one_holds(list, at as int, i as int);
                    if i > 0 {
                        assert(!span::is_before(at as int, length_of(list, (i - 1) + 1)));
                    }
                }
                let before: Span = match last {
                    Length::Finite(before) => before,
                    _ => Span::zero(),
                };
                assert(length_of(list, i as int) == Total::Finite(before.value()));
                return (i, before);
            }
            sum = more;
            i += 1;
        }
        proof {
            assert forall|k: int| !holds_moment(list, at as int, k) by {
                if 0 <= k < list.len() {
                    assert(!span::is_before(at as int, length_of(list, k + 1)));
                }
            }
        }
        if i == 0 {
            return (0, Span::zero());
        }
        proof {
            assert(list[i - 1] == self.segments@[i - 1]@);
            assert(!span::is_before(at as int, length_of(list, (i - 1) + 1)));
        }
        let before: Span = match (sum.length(), last) {
            (Length::Finite(_), Length::Finite(before)) => if before.negative {
                Span::zero()
            } else {
                before
            },
            _ => Span::zero(),
        };
        (i - 1, before)
    }

    /// How often to ask for the playlist again while it is growing, in
    /// seconds: once per segment, within reason.
    pub fn refresh_interval(&self) -> (r: u64)
        ensures
            r == (if self@.target_duration < 2 {
                2
            } else if self@.target_duration > 30 {
                30
            } else {
                self@.target_duration as int
            }),
    {
        if self.target_duration < 2 {
            2
        } else if self.target_duration > 30 {
            30
        } else {
            self.target_duration as u64
        }
    }

    /// The playlist as the player should read it, starting at segment
    /// `first`: absolute URLs, the init segment, and the end marker if the
    /// recording has one.
    pub fn render_from(&self, first: usize) -> (r: String)
        ensures
            r@ == rendered(self@, first as nat),
    {
        let mut out = "#EXTM3U\n#EXT-X-VERSION:".to_owned();
        text::push_decimal(&mut out, self.version as u64);
        out.append("\n#EXT-X-TARGETDURATION:");
        text::push_decimal(&mut out, self.target_duration as u64);
        out.append("\n#EXT-X-MEDIA-SEQUENCE:");
        text::push_decimal(&mut out, first as u64);
        out.append("\n");
        out.append(
            if self.ended {
                "#EXT-X-PLAYLIST-TYPE:VOD\n"
            } else {
                "#EXT-X-PLAYLIST-TYPE:EVENT\n"
            },
        );
        let ghost above = out@;
        if let Some(init) = &self.init {
            out.append("#EXT-X-MAP:URI=\"");
            out.append(init.as_str());
            out.append("\"\n");
        }
        assert(out@ =~= above + init_line(self@.init));
        let tail = self.tail(first);
        out.append(tail.as_str());
        out
    }

    /// The segment lines from `from` on, and the end marker if the recording
    /// has one: what gets appended to a local copy that was written up to
    /// `from` while the broadcast was still going.
    pub fn tail(&self, from: usize) -> (r: String)
        ensures
            r@ == tail_of(self@, from as int),
    {
        let mut out = String::new();
        let mut i: usize = from;
        let n: usize = self.segments.len();
        while i < n
            invariant
                n == self.segments@.len(),
                from <= i,
                from <= n ==> i <= n,
                from > n ==> i == from,
                out@ == lines_between(self@.segments, from as int, i as int),
            decreases n - i,
        {
            assert(self@.segments[i as int] == self.segments@[i as int]@);
            push_segment(&mut out, &self.segments[i]);
            i += 1;
        }
        if self.ended {
            out.append("#EXT-X-ENDLIST\n");
        }
        assert(out@ =~= tail_of(self@, from as int));
        out
    }

    /// Take a newer reading of the same playlist: any segments beyond what
    /// this one has, and the end marker once it appears. Segments already
    /// held are kept as they are: a broadcast never rewrites its past.
    pub fn absorb(&mut self, fresh: Playlist)
        ensures
            final(self)@ == absorbed(old(self)@, fresh@),
    {
        let mut fresh = fresh;
        let known: usize = self.segments.len();
        let ghost mine = self.segments@;
        let ghost theirs = fresh.segments@;
        if fresh.segments.len() > known {
            let mut more = fresh.segments.split_off(known);
            self.segments.append(&mut more);
            assert(segment_views(self.segments@) =~= segment_views(mine) + segment_views(theirs).skip(
                known as int,
            ));
        }
        self.ended = self.ended || fresh.ended;
    }
}

// ── Laws ─────────────────────────────────────────────────────────────

pub proof fn lemma_lines_join(segments: Seq<SegmentView>, from: int, mid: int, to: int)
    requires
        from <= mid <= to,
    ensures
        lines_between(segments, from, to) == lines_between(segments, from, mid) + lines_between(
            segments,
            mid,
            to,
        ),
    decreases to - mid,
{
    if mid == to {
        assert(lines_between(segments, from, mid) + Seq::<char>::empty() =~= lines_between(
            segments,
            from,
            mid,
        ));
    } else {
        lemma_lines_join(segments, from, mid, to - 1);
        assert(lines_between(segments, from, to) =~= lines_between(segments, from, mid)
            + lines_between(segments, mid, to));
    }
}

proof fn lemma_lines_same(a: Seq<SegmentView>, b: Seq<SegmentView>, from: int, to: int)
    requires
        0 <= from,
        forall|i: int| from <= i < to ==> a[i] == b[i],
    ensures
        lines_between(a, from, to) == lines_between(b, from, to),
    decreases to - from,
{
    if from < to {
        lemma_lines_same(a, b, from, to - 1);
    }
}

/// Growth is appended, never rewritten: behind what was written of a recording
/// still going, starting anywhere, the tail of a newer reading makes the tail
/// that the newer reading itself would have.
pub proof fn law_growth_is_appending(list: PlaylistView, fresh: PlaylistView, first: nat)
    requires
        !list.ended,
        first <= list.segments.len(),
    ensures
        tail_of(list, first as int) + tail_of(
            absorbed(list, fresh),
            list.segments.len() as int,
        ) == tail_of(absorbed(list, fresh), first as int),
{
    let grown = absorbed(list, fresh);
    let n = list.segments.len() as int;
    let m = grown.segments.len() as int;
    lemma_lines_join(grown.segments, first as int, n, m);
    lemma_lines_same(list.segments, grown.segments, first as int, n);
    assert(tail_of(list, first as int) + tail_of(grown, n) =~= tail_of(grown, first as int));
}

/// A newer reading keeps every segment that was held, in its place, never
/// loses one, and never takes the end marker back.
pub proof fn law_absorbing_keeps_the_past(list: PlaylistView, fresh: PlaylistView)
    ensures
        absorbed(list, fresh).segments.len() >= list.segments.len(),
        absorbed(list, fresh).segments.take(list.segments.len() as int) == list.segments,
        list.ended ==> absorbed(list, fresh).ended,
        absorbed(list, list) == list,
{
    let grown = absorbed(list, fresh);
    assert(grown.segments.take(list.segments.len() as int) =~= list.segments);
}

/// How long a recording is never shrinks while it is read on, as long as no new
/// segment takes time back: a moment that it reached it still reaches.
pub proof fn law_length_never_shrinks(list: PlaylistView, fresh: PlaylistView, at: int)
    requires
        forall|i: int|
            list.segments.len() <= i < fresh.segments.len() ==> span::is_forward(
                (#[trigger] fresh.segments[i]).duration,
            ),
        span::is_before(at, length_of(list.segments, list.segments.len() as int)),
    ensures
        span::is_before(
            at,
            length_of(
                absorbed(list, fresh).segments,
                absorbed(list, fresh).segments.len() as int,
            ),
        ),
{
    let grown = absorbed(list, fresh);
    lemma_length_same(list.segments, grown.segments, list.segments.len() as int);
    assert forall|i: int| list.segments.len() <= i < grown.segments.len() implies span::is_forward(
        (#[trigger] grown.segments[i]).duration,
    ) by {
        assert(grown.segments[i] == fresh.segments[i]);
    }
    lemma_length_grows(grown.segments, list.segments.len() as int, grown.segments.len() as int, at);
}

proof fn lemma_length_same(a: Seq<SegmentView>, b: Seq<SegmentView>, n: int)
    requires
        forall|i: int| 0 <= i < n ==> a[i] == b[i],
    ensures
        length_of(a, n) == length_of(b, n),
    decreases n,
{
    if n > 0 {
        lemma_length_same(a, b, n - 1);
    }
}

proof fn lemma_length_grows(a: Seq<SegmentView>, n: int, m: int, at: int)
    requires
        0 <= n <= m,
        forall|i: int| n <= i < m ==> span::is_forward((#[trigger] a[i]).duration),
        span::is_before(at, length_of(a, n)),
    ensures
        span::is_before(at, length_of(a, m)),
    decreases m - n,
{
    if n < m {
        lemma_length_grows(a, n, m - 1, at);
        assert(span::is_forward(a[m - 1].duration));
    }
}

/// No two segments hold one moment.
proof fn lemma_one_holds(segments: Seq<SegmentView>, at: int, i: int)
    requires
        holds_moment(segments, at, i),
    ensures
        forall|k: int| holds_moment(segments, at, k) ==> k == i,
{
    assert forall|k: int| holds_moment(segments, at, k) implies k == i by {
        if k < i {
            assert(!span::is_before(at, length_of(segments, k + 1)));
        } else if k > i {
            assert(!span::is_before(at, length_of(segments, i + 1)));
        }
    }
}

/// Every moment of a recording is in one of its segments: a time from the
/// start of it and before its end is held by exactly one, and lies between
/// that segment's start and its end.
pub proof fn law_every_moment_has_its_segment(segments: Seq<SegmentView>, at: int)
    requires
        0 <= at,
        span::is_before(at, length_of(segments, segments.len() as int)),
    ensures
        exists|i: int|
            #[trigger] holds_moment(segments, at, i) && span::is_before(
                at,
                length_of(segments, i + 1),
            ) && length_of(segments, i) is Finite && length_of(segments, i)->Finite_0 <= at && (
            forall|k: int| holds_moment(segments, at, k) ==> k == i),
{
    lemma_moment(segments, at, segments.len() as int);
    let i = choose|i: int| holds_moment(segments, at, i);
    lemma_one_holds(segments, at, i);
    if i > 0 {
        assert(!span::is_before(at, length_of(segments, (i - 1) + 1)));
    }
}

proof fn lemma_moment(segments: Seq<SegmentView>, at: int, n: int)
    requires
        0 <= n <= segments.len(),
        0 <= at,
        span::is_before(at, length_of(segments, n)),
    ensures
        exists|i: int| holds_moment(segments, at, i),
    decreases n,
{
    if n > 0 {
        if exists|k: int| 0 <= k < n - 1 && span::is_before(at, #[trigger] length_of(segments, k + 1)) {
            let k = choose|k: int|
                0 <= k < n - 1 && span::is_before(at, #[trigger] length_of(segments, k + 1));
            lemma_moment(segments, at, k + 1);
        } else {
            assert(holds_moment(segments, at, n - 1));
        }
    }
}

/// A newer reading that goes on from what is held is taken in whole: every
/// segment behind those held comes from it, none is left out, and the end comes
/// where the newer reading has it.
pub proof fn law_a_newer_reading_is_taken_in_whole(list: PlaylistView, fresh: PlaylistView)
    ensures
        fresh.segments.len() >= list.segments.len() ==> absorbed(list, fresh).segments.len()
            == fresh.segments.len(),
        forall|i: int|
            list.segments.len() <= i < fresh.segments.len() ==> #[trigger] absorbed(
                list,
                fresh,
            ).segments[i] == fresh.segments[i],
        forall|i: int|
            0 <= i < list.segments.len() ==> #[trigger] absorbed(list, fresh).segments[i]
                == list.segments[i],
        absorbed(list, fresh).ended == (list.ended || fresh.ended),
        absorbed(list, fresh).url == list.url,
        absorbed(list, fresh).init == list.init,
        absorbed(list, fresh).version == list.version,
        absorbed(list, fresh).target_duration == list.target_duration,
{
}

/// Reading on in two steps comes to the same as reading on in one, where the
/// second goes on from the first.
pub proof fn law_reading_on_in_steps(list: PlaylistView, next: PlaylistView, last: PlaylistView)
    requires
        list.segments.len() <= next.segments.len() <= last.segments.len(),
        forall|i: int|
            0 <= i < next.segments.len() ==> #[trigger] last.segments[i] == next.segments[i],
        next.ended ==> last.ended,
    ensures
        absorbed(absorbed(list, next), last) == absorbed(list, last),
{
    let a = absorbed(absorbed(list, next), last);
    let b = absorbed(list, last);
    assert(a.segments =~= b.segments);
}

/// A moment lies in the segment that is found for it: what comes before it is
/// what the segments before it take, and it is over before the segment is. A
/// moment that no segment holds is in the last.
pub proof fn law_a_moment_is_found_in_its_segment(
    segments: Seq<SegmentView>,
    at: int,
    index: int,
    before: int,
)
    requires
        located(segments, at, index, before),
        segments.len() > 0,
    ensures
        0 <= index < segments.len(),
        0 <= at && span::is_before(at, length_of(segments, segments.len() as int)) ==> before <= at
            && length_of(segments, index) == Total::Finite(before) && span::is_before(
            at,
            length_of(segments, index + 1),
        ),
        (forall|n: int| 0 <= n <= segments.len() ==> !span::is_before(
            at,
            #[trigger] length_of(segments, n),
        )) ==> index == segments.len() - 1 && before >= 0,
        (forall|i: int| 0 <= i < segments.len() ==> span::is_forward(
            (#[trigger] segments[i]).duration,
        )) && !span::is_before(at, length_of(segments, segments.len() as int)) ==> Total::Finite(
            before,
        ) == length_of(segments, segments.len() - 1),
{
    let n = segments.len() as int;
    if 0 <= at && span::is_before(at, length_of(segments, n)) {
        law_every_moment_has_its_segment(segments, at);
    }
    if forall|m: int| 0 <= m <= n ==> !span::is_before(at, #[trigger] length_of(segments, m)) {
        assert forall|i: int| !holds_moment(segments, at, i) by {
            if 0 <= i < n {
                assert(!span::is_before(at, length_of(segments, i + 1)));
            }
        }
    }
    if (forall|i: int| 0 <= i < n ==> span::is_forward((#[trigger] segments[i]).duration))
        && !span::is_before(at, length_of(segments, n)) {
        assert forall|i: int| !holds_moment(segments, at, i) by {
            if holds_moment(segments, at, i) {
                lemma_length_grows(segments, i + 1, n, at);
            }
        }
        lemma_forward(segments, n - 1);
        assert(span::is_forward(segments[n - 1].duration));
    }
}

pub proof fn lemma_forward(segments: Seq<SegmentView>, n: int)
    requires
        0 <= n <= segments.len(),
        forall|i: int| 0 <= i < n ==> span::is_forward((#[trigger] segments[i]).duration),
    ensures
        span::is_before(-1, length_of(segments, n)),
    decreases n,
{
    if n > 0 {
        lemma_forward(segments, n - 1);
        assert(span::is_forward(segments[n - 1].duration));
    }
}

/// A link that a playlist writes is read against where the playlist is: one
/// with a scheme is whole already, one from the root goes behind the host, and
/// any other goes beside the playlist.
pub proof fn law_links_are_read_against_the_playlist(
    scheme: Seq<char>,
    host: Seq<char>,
    folder: Seq<char>,
    file: Seq<char>,
    reference: Seq<char>,
)
    requires
        !scheme.contains(':'),
        !host.contains('/'),
        !file.contains('/'),
        reference.len() > 0,
    ensures
        ({
            let base = scheme + "://"@ + host + seq!['/'] + folder + seq!['/'] + file;
            &&& text::occurs(reference, "://"@) ==> made_absolute(base, reference) == reference
            &&& !text::occurs(reference, "://"@) && reference[0] == '/' ==> made_absolute(
                base,
                reference,
            ) == scheme + "://"@ + host + reference
            &&& !text::occurs(reference, "://"@) && reference[0] != '/' ==> made_absolute(
                base,
                reference,
            ) == scheme + "://"@ + host + seq!['/'] + folder + seq!['/'] + reference
        }),
{
    reveal_strlit("://");
    let mark = "://"@;
    let n = scheme.len() as int;
    let rest = host + seq!['/'] + folder + seq!['/'] + file;
    let base = scheme + mark + host + seq!['/'] + folder + seq!['/'] + file;
    assert(base =~= scheme + mark + rest);
    text::lemma_place(base, mark);
    assert(base.skip(n).take(3) =~= mark);
    assert(text::begins(base.skip(n), mark));
    let i = text::place(base, mark)->Some_0;
    if i < n {
        assert(base.skip(i).take(3)[0] == mark[0]);
        assert(base[i] == ':');
        assert(scheme[i] == ':');
        assert(scheme.contains(':'));
    }
    assert(i == n);
    assert(base.skip(n + 3) =~= rest);
    assert forall|k: int| 0 <= k < host.len() implies rest[k] != '/' by {
        assert(host.contains(host[k]));
    }
    text::lemma_first_is(rest, '/', host.len() as int);
    assert(base.take(n + 3 + host.len()) =~= scheme + mark + host);
    assert(origin(base) == base.take(n + 3 + host.len()));
    let front = scheme + mark + host + seq!['/'] + folder;
    let slash = front.len() as int;
    assert(base =~= front + seq!['/'] + file);
    assert(base[slash] == '/');
    text::lemma_last_place(base, '/');
    let last = text::last_place(base, '/');
    assert(last == slash) by {
        if last > slash {
            assert(file[last - slash - 1] == '/');
            assert(file.contains('/'));
        }
    }
    assert(base.take(slash + 1) =~= front + seq!['/']);
    if !text::occurs(reference, mark) {
        if reference[0] == '/' {
            assert(made_absolute(base, reference) =~= scheme + mark + host + reference);
        } else {
            assert(made_absolute(base, reference) =~= scheme + mark + host + seq!['/'] + folder
                + seq!['/'] + reference);
        }
    }
}

/// What an answer comes to: a refusal is said by its number, a body that broke
/// off by its reason, and nothing else keeps a playlist from being read.
pub proof fn law_an_answer_is_read_or_explained(
    url: Seq<char>,
    status: u16,
    body: Seq<char>,
    reason: Seq<char>,
)
    ensures
        status < 400 ==> answered(url, status, Ok(body)) == parsed(url, body),
        status >= 400 ==> answered(url, status, Ok(body)) == Err::<PlaylistView, Seq<char>>(
            "the playlist answered HTTP "@ + text::decimal(status as nat),
        ),
        status < 400 ==> answered(url, status, Err(reason)) == Err::<PlaylistView, Seq<char>>(
            "could not read the playlist: "@ + reason,
        ),
{
}

/// What a playlist says of itself is taken from the line that says it, whatever
/// was read before: its version, the longest a segment may be, that it is
/// finished, and that there is a cut.
pub proof fn law_a_line_is_taken_for_what_it_says(p: Progress, n: u32, other: Seq<char>)
    ensures
        with_line(p, "#EXT-X-VERSION:"@ + text::decimal(n as nat)) == (Progress {
            list: PlaylistView { version: n, ..p.list },
            ..p
        }),
        with_line(p, "#EXT-X-TARGETDURATION:"@ + text::decimal(n as nat)) == (Progress {
            list: PlaylistView { target_duration: n, ..p.list },
            ..p
        }),
        text::unsigned(text::trim(other), u32::MAX as nat) is None ==> with_line(
            p,
            "#EXT-X-VERSION:"@ + other,
        ).list.version == 3,
        text::unsigned(text::trim(other), u32::MAX as nat) is None ==> with_line(
            p,
            "#EXT-X-TARGETDURATION:"@ + other,
        ).list.target_duration == 10,
        with_line(p, "#EXT-X-ENDLIST"@) == (Progress {
            list: PlaylistView { ended: true, ..p.list },
            ..p
        }),
        with_line(p, "#EXT-X-DISCONTINUITY"@) == (Progress { cut: true, ..p }),
{
    let d = text::decimal(n as nat);
    lemma_version_line(p, d);
    lemma_version_line(p, other);
    lemma_target_line(p, d);
    lemma_target_line(p, other);
    lemma_mark_lines(p);
    crate::rewritten::lemma_decimal_reads_back(n, 3);
    crate::rewritten::lemma_decimal_reads_back(n, 10);
}

proof fn lemma_version_line(p: Progress, rest: Seq<char>)
    ensures
        with_line(p, "#EXT-X-VERSION:"@ + rest) == (Progress {
            list: PlaylistView { version: number_or(rest, 3), ..p.list },
            ..p
        }),
{
    let tag = "#EXT-X-VERSION:"@;
    assert((tag + rest).take(tag.len() as int) =~= tag);
    assert((tag + rest).skip(tag.len() as int) =~= rest);
}

proof fn lemma_target_line(p: Progress, rest: Seq<char>)
    ensures
        with_line(p, "#EXT-X-TARGETDURATION:"@ + rest) == (Progress {
            list: PlaylistView { target_duration: number_or(rest, 10), ..p.list },
            ..p
        }),
{
    let tag = "#EXT-X-TARGETDURATION:"@;
    let other = "#EXT-X-VERSION:"@;
    assert((tag + rest).take(tag.len() as int) =~= tag);
    assert((tag + rest).skip(tag.len() as int) =~= rest);
    assert(!text::begins(tag + rest, other)) by {
        reveal_strlit("#EXT-X-VERSION:");
        reveal_strlit("#EXT-X-TARGETDURATION:");
        assert((tag + rest).take(other.len() as int)[7] == 'T');
    }
}

proof fn lemma_mark_lines(p: Progress)
    ensures
        with_line(p, "#EXT-X-ENDLIST"@) == (Progress {
            list: PlaylistView { ended: true, ..p.list },
            ..p
        }),
        with_line(p, "#EXT-X-DISCONTINUITY"@) == (Progress { cut: true, ..p }),
{
    let (end, cut) = ("#EXT-X-ENDLIST"@, "#EXT-X-DISCONTINUITY"@);
    lemma_not_a_tag(end, 'E');
    lemma_not_a_tag(cut, 'D');
    assert(end.len() == 14 && cut.len() == 20 && end[7] == 'E' && end[4] == '-' && cut[7] == 'D'
        && cut[4] == '-') by {
        reveal_strlit("#EXT-X-ENDLIST");
        reveal_strlit("#EXT-X-DISCONTINUITY");
    }
}

proof fn lemma_not_a_tag(line: Seq<char>, c: char)
    ensures
        line.len() > 7 && line[7] == c && line[4] == '-' && c != 'V' && c != 'T' && c != 'M' ==> {
            &&& !text::begins(line, "#EXT-X-VERSION:"@)
            &&& !text::begins(line, "#EXT-X-TARGETDURATION:"@)
            &&& !text::begins(line, "#EXT-X-MAP:"@)
            &&& !text::begins(line, "#EXTINF:"@)
        },
{
    reveal_strlit("#EXT-X-VERSION:");
    reveal_strlit("#EXT-X-TARGETDURATION:");
    reveal_strlit("#EXT-X-MAP:");
    reveal_strlit("#EXTINF:");
    if line.len() > 7 {
        if text::begins(line, "#EXT-X-VERSION:"@) {
            assert(line.take(15)[7] == line[7]);
        }
        if text::begins(line, "#EXT-X-TARGETDURATION:"@) {
            assert(line.take(22)[7] == line[7]);
        }
        if text::begins(line, "#EXT-X-MAP:"@) {
            assert(line.take(11)[7] == line[7]);
        }
        if text::begins(line, "#EXTINF:"@) {
            assert(line.take(8)[4] == line[4]);
        }
    }
}

/// A segment is what stands under its duration: it lasts as long as the line
/// above it says, is fetched from its own address, and comes after every
/// segment that was read before. An address without a duration is no segment.
pub proof fn law_an_address_is_a_segment_of_its_duration(p: Progress, line: Seq<char>)
    requires
        line.len() > 0,
        line[0] != '#',
    ensures
        p.duration is None ==> with_line(p, line) == p,
        p.duration matches Some(duration) ==> with_line(p, line) == (Progress {
            list: PlaylistView {
                segments: p.list.segments.push(
                    SegmentView {
                        duration,
                        url: made_absolute(p.list.url, line),
                        discontinuity: p.cut,
                    },
                ),
                ..p.list
            },
            duration: None,
            cut: false,
        }),
{
    lemma_no_tag(line);
}

proof fn lemma_no_tag(line: Seq<char>)
    requires
        line.len() > 0,
        line[0] != '#',
    ensures
        !text::begins(line, "#EXT-X-VERSION:"@),
        !text::begins(line, "#EXT-X-TARGETDURATION:"@),
        !text::begins(line, "#EXT-X-MAP:"@),
        !text::begins(line, "#EXTINF:"@),
        line != "#EXT-X-DISCONTINUITY"@,
        line != "#EXT-X-ENDLIST"@,
{
    reveal_strlit("#EXT-X-VERSION:");
    reveal_strlit("#EXT-X-TARGETDURATION:");
    reveal_strlit("#EXT-X-ENDLIST");
    reveal_strlit("#EXT-X-DISCONTINUITY");
    reveal_strlit("#EXT-X-MAP:");
    reveal_strlit("#EXTINF:");
    assert forall|tag: Seq<char>| tag.len() > 0 && tag[0] == '#' implies !(#[trigger] text::begins(
        line,
        tag,
    )) by {
        if text::begins(line, tag) {
            assert(line.take(tag.len() as int)[0] == line[0]);
        }
    }
}

/// A playlist that says nothing of itself is of version three, its segments ten
/// seconds at most, and not finished.
pub proof fn law_what_a_playlist_leaves_out(url: Seq<char>)
    ensures
        unread(url).list.url == url,
        unread(url).list.version == 3,
        unread(url).list.target_duration == 10,
        unread(url).list.init is None,
        unread(url).list.segments.len() == 0,
        !unread(url).list.ended,
        unread(url).duration is None,
        !unread(url).cut,
{
}

/// The head of what the player reads says which segment comes first, and
/// whether more will come: a finished playlist is a recording, one that grows
/// an event.
pub proof fn law_a_head_says_where_it_starts(list: PlaylistView, first: nat)
    ensures
        ({
            let fixed = "#EXTM3U\n#EXT-X-VERSION:"@ + text::decimal(list.version as nat)
                + "\n#EXT-X-TARGETDURATION:"@ + text::decimal(list.target_duration as nat)
                + "\n#EXT-X-MEDIA-SEQUENCE:"@ + text::decimal(first);
            let kind = if list.ended {
                "\n#EXT-X-PLAYLIST-TYPE:VOD\n"@
            } else {
                "\n#EXT-X-PLAYLIST-TYPE:EVENT\n"@
            };
            &&& list.init is None ==> head_of(list, first) == fixed + kind
            &&& list.init matches Some(uri) ==> head_of(list, first) == fixed + kind
                + "#EXT-X-MAP:URI=\""@ + uri + "\"\n"@
            &&& text::begins(rendered(list, first), head_of(list, first))
        }),
{
    reveal_strlit("\n");
    reveal_strlit("\n#EXT-X-PLAYLIST-TYPE:VOD\n");
    reveal_strlit("\n#EXT-X-PLAYLIST-TYPE:EVENT\n");
    reveal_strlit("#EXT-X-PLAYLIST-TYPE:VOD\n");
    reveal_strlit("#EXT-X-PLAYLIST-TYPE:EVENT\n");
    let fixed = "#EXTM3U\n#EXT-X-VERSION:"@ + text::decimal(list.version as nat)
        + "\n#EXT-X-TARGETDURATION:"@ + text::decimal(list.target_duration as nat)
        + "\n#EXT-X-MEDIA-SEQUENCE:"@ + text::decimal(first);
    let kind = if list.ended {
        "\n#EXT-X-PLAYLIST-TYPE:VOD\n"@
    } else {
        "\n#EXT-X-PLAYLIST-TYPE:EVENT\n"@
    };
    assert("\n"@ + kind_line(list.ended) =~= kind);
    assert(head_of(list, first) =~= fixed + ("\n"@ + kind_line(list.ended)) + init_line(list.init));
    match list.init {
        None => {
            assert(head_of(list, first) =~= fixed + kind);
        },
        Some(uri) => {
            assert(head_of(list, first) =~= fixed + kind + "#EXT-X-MAP:URI=\""@ + uri + "\"\n"@);
        },
    }
    assert(rendered(list, first).take(head_of(list, first).len() as int) =~= head_of(list, first));
}

} // verus!
