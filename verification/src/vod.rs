//! Positioning inside a recording.
//!
//! A recording is not seeked; it is reopened. To reach a moment, a playlist
//! that starts at the segment holding it is written to a file of its own, and
//! the player loads that file with a start offset inside its first segment.
//! A broadcast still being recorded has its file grow by appending.

use crate::playlist;
use crate::playlist::{Playlist, PlaylistView};
use crate::seek_bar::Timeline;
use crate::span;
use crate::span::{Span, Total};
use crate::text;
use vstd::prelude::*;
use vstd::string::*;

verus! {

/// What the demuxer may fetch from a playlist it read off disk.
pub const PROTOCOLS: &'static str = "file,http,https,tcp,tls,crypto,data";

/// A recording's length as the seek bar sees it, in milliseconds.
#[derive(Debug, Clone, Copy, PartialEq, Eq)]
pub struct Extent {
    pub length_ms: u64,
    pub growing: bool,
}

impl Extent {
    /// What a playlist says of its recording's length.
    pub open spec fn of(list: PlaylistView) -> Extent {
        Extent {
            length_ms: span::counted(
                playlist::length_of(list.segments, list.segments.len() as int),
            ),
            growing: !list.ended,
        }
    }

    pub fn new(playlist: &Playlist) -> (r: Extent)
        ensures
            r == Extent::of(playlist@),
    {
        let length_ms: u64 = playlist.length().count();
        Extent { length_ms, growing: !playlist.ended }
    }

    pub fn timeline(&self) -> (r: Timeline)
        ensures
            r == (Timeline { length: self.length_ms, growing: self.growing }),
    {
        Timeline { length: self.length_ms, growing: self.growing }
    }
}

/// A file that the player is to open.
#[derive(Debug, Clone, PartialEq, Eq)]
pub struct Chunk {
    pub name: String,
    pub contents: String,
    /// Where inside it to start, in milliseconds.
    pub within: u64,
}

/// A recording being played.
#[derive(Debug, Clone)]
pub struct Recording {
    pub playlist: Playlist,
    pub label: String,
    /// Numbers the files, so that none reuses a name that may still be open.
    pub serial: u32,
    /// Milliseconds of the recording before the current file's first segment.
    pub base: Span,
    /// Between telling the player to load a new file and its saying that it
    /// has: positions reported in that window belong to the old file.
    pub loading: bool,
    /// How many of the playlist's segments the file holds, counted from the
    /// playlist's start, and whether the end has been written to it.
    pub written: usize,
    pub ended_written: bool,
    /// The numbers of files that the player may still hold.
    pub stale: Vec<u32>,
}

/// The name of a recording's file.
pub open spec fn file_name(label: Seq<char>, serial: u32) -> Seq<char> {
    label + "-"@ + text::decimal(serial as nat) + ".m3u8"@
}

fn name_of(label: &str, serial: u32) -> (r: String)
    ensures
        r@ == file_name(label@, serial),
{
    let mut out = text::concat2(label, "-");
    text::push_decimal(&mut out, serial as u64);
    out.append(".m3u8");
    out
}

/// Two files of one recording never have the same name.
pub proof fn law_no_file_name_is_reused(label: Seq<char>, a: u32, b: u32)
    requires
        a != b,
    ensures
        file_name(label, a) != file_name(label, b),
{
    reveal_strlit("-");
    reveal_strlit(".m3u8");
    let x = text::decimal(a as nat);
    let y = text::decimal(b as nat);
    let fa = file_name(label, a);
    let fb = file_name(label, b);
    if fa == fb {
        assert(fa.len() == label.len() + 1 + x.len() + 5);
        assert(fb.len() == label.len() + 1 + y.len() + 5);
        assert(fa.subrange(label.len() as int + 1, label.len() as int + 1 + x.len() as int) =~= x);
        assert(fb.subrange(label.len() as int + 1, label.len() as int + 1 + y.len() as int) =~= y);
        crate::rewritten::lemma_decimal(a as nat);
        crate::rewritten::lemma_decimal(b as nat);
    }
}

/// A file that starts where a moment is.
pub open spec fn opens_at(list: PlaylistView, label: Seq<char>, serial: u32, at: int, r: Chunk, base: int)
    -> bool {
    exists|index: int|
        #[trigger] playlist::located(list.segments, at, index, base) && index >= 0 && r.name@ == file_name(
            label,
            serial,
        ) && r.contents@ == playlist::rendered(list, index as nat) && r.within == span::counted(
            Total::Finite(at - base),
        )
}

fn chunk(playlist: &Playlist, label: &str, serial: u32, at: i64) -> (r: (Chunk, Span))
    ensures
        opens_at(playlist@, label@, serial, at as int, r.0, r.1.value()),
{
    let (index, before) = playlist.segment_at(at);
    assert(playlist::located(playlist@.segments, at as int, index as int, before.value()));
    let contents = playlist.render_from(index);
    let within: u64 = before.behind(at);
    (Chunk { name: name_of(label, serial), contents, within }, before)
}

impl Recording {
    /// Start a recording at a moment, and say what the player should open.
    pub fn open(playlist: Playlist, label: &str, start_at: i64) -> (r: (Recording, Chunk))
        ensures
            r.0.playlist == playlist,
            r.0.label@ == label@,
            r.0.serial == 1,
            !r.0.loading,
            r.0.written == playlist@.segments.len(),
            r.0.ended_written == playlist@.ended,
            r.0.stale@.len() == 0,
            opens_at(playlist@, label@, 1, start_at as int, r.1, r.0.base.value()),
    {
        let (first, base) = chunk(&playlist, label, 1, start_at);
        let written: usize = playlist.segments.len();
        let ended_written = playlist.ended;
        (
            Recording {
                playlist,
                label: label.to_owned(),
                serial: 1,
                base,
                loading: false,
                written,
                ended_written,
                stale: Vec::new(),
            },
            first,
        )
    }

    /// Where the recording is, given the player's position in the current file,
    /// or nothing while the player is between files.
    pub fn position(&self, time_pos: i64) -> (r: Option<Span>)
        requires
            -u128::MAX <= self.base.value() + time_pos <= u128::MAX,
        ensures
            r is None <==> self.loading,
            r matches Some(at) ==> at.value() == self.base.value() + time_pos,
    {
        if self.loading {
            None
        } else {
            Some(self.base.further(time_pos))
        }
    }

    /// Reopen at a moment: the file to write and to load. The file it takes the
    /// place of may still be held by the player.
    pub fn reposition(&mut self, at: i64) -> (r: Chunk)
        requires
            old(self).serial < u32::MAX,
        ensures
            *final(self) == (Recording {
                serial: (old(self).serial + 1) as u32,
                base: final(self).base,
                written: old(self).playlist@.segments.len() as usize,
                ended_written: old(self).playlist@.ended,
                stale: final(self).stale,
                ..*old(self)
            }),
            final(self).stale@ == old(self).stale@.push(old(self).serial),
            opens_at(
                old(self).playlist@,
                old(self).label@,
                final(self).serial,
                at as int,
                r,
                final(self).base.value(),
            ),
    {
        self.stale.push(self.serial);
        self.serial = self.serial + 1;
        let (next, base) = chunk(&self.playlist, self.label.as_str(), self.serial, at);
        self.base = base;
        self.written = self.playlist.segments.len();
        self.ended_written = self.playlist.ended;
        next
    }

    /// The player was told to load the new file.
    pub fn loads(&mut self)
        ensures
            *final(self) == (Recording { loading: true, ..*old(self) }),
    {
        self.loading = true;
    }

    /// The player says that it plays a file now. Only the file that was asked
    /// for last counts: with two repositions in quick succession, a position
    /// read against the wrong base would put the bar a segment out. Whether it
    /// was that file, so that the stale ones can go.
    pub fn now_playing(&mut self, name: &str) -> (r: bool)
        ensures
            r == (name@ == file_name(old(self).label@, old(self).serial)),
            *final(self) == (if r {
                Recording { loading: false, ..*old(self) }
            } else {
                *old(self)
            }),
    {
        let current = name_of(self.label.as_str(), self.serial);
        if text::same(current.as_str(), name) {
            self.loading = false;
            true
        } else {
            false
        }
    }

    /// How long to wait before the playlist is asked for again, in seconds, or
    /// nothing where the recording is complete.
    pub fn keeper_wait(&self) -> (r: Option<u64>)
        ensures
            r is None <==> self.playlist@.ended,
            r matches Some(secs) ==> secs == (if self.playlist@.target_duration < 2 {
                2
            } else if self.playlist@.target_duration > 30 {
                30
            } else {
                self.playlist@.target_duration as int
            }),
    {
        if self.playlist.ended {
            None
        } else {
            Some(self.playlist.refresh_interval())
        }
    }

    /// Take a fresh playlist in. What is to be appended to the file the player
    /// reads: the segments it does not hold yet, and the end where that has
    /// come.
    pub fn grow(&mut self, fresh: Playlist) -> (r: Option<String>)
        ensures
            final(self).playlist@ == playlist::absorbed(old(self).playlist@, fresh@),
            *final(self) == (Recording { playlist: final(self).playlist, ..*old(self) }),
            ({
                let list = final(self).playlist@;
                if old(self).written < list.segments.len() || (list.ended && !old(
                    self,
                ).ended_written) {
                    r is Some && r->0@ == playlist::tail_of(list, old(self).written as int)
                } else {
                    r is None
                }
            }),
    {
        self.playlist.absorb(fresh);
        if self.written < self.playlist.segments.len() || (self.playlist.ended
            && !self.ended_written) {
            Some(self.playlist.tail(self.written))
        } else {
            None
        }
    }

    /// What was to be appended has been.
    pub fn grown(&mut self)
        ensures
            *final(self) == (Recording {
                written: old(self).playlist@.segments.len() as usize,
                ended_written: old(self).playlist@.ended,
                ..*old(self)
            }),
    {
        self.written = self.playlist.segments.len();
        self.ended_written = self.playlist.ended;
    }

    /// The options the player needs to read a playlist off disk at all: the
    /// right demuxer, from the first segment on, and what it may fetch, quoted
    /// with its length.
    pub fn mpv_options() -> (r: Vec<(String, String)>)
        ensures
            r@.len() == 2,
            r@[0].0@ == "demuxer"@,
            r@[0].1@ == "lavf"@,
            r@[1].0@ == "demuxer-lavf-o"@,
            r@[1].1@ == "live_start_index=0,protocol_whitelist=%"@ + text::decimal(
                PROTOCOLS@.len(),
            ) + "%"@ + PROTOCOLS@,
    {
        let mut quoted = "live_start_index=0,protocol_whitelist=%".to_owned();
        let chars = text::chars_of(PROTOCOLS);
        text::push_decimal(&mut quoted, chars.len() as u64);
        quoted.append("%");
        quoted.append(PROTOCOLS);
        let mut out: Vec<(String, String)> = Vec::new();
        out.push(("demuxer".to_owned(), "lavf".to_owned()));
        out.push(("demuxer-lavf-o".to_owned(), quoted));
        out
    }
}

/// A complete recording is asked about no more, and its file has nothing left
/// to grow by once the end is in it.
pub proof fn law_a_complete_recording_stops_growing(
    before: Recording,
    fresh: PlaylistView,
    after: PlaylistView,
)
    requires
        after == playlist::absorbed(before.playlist@, fresh),
        before.playlist@.ended,
        before.ended_written,
        before.written == after.segments.len(),
    ensures
        after.ended,
        !(before.written < after.segments.len() || (after.ended && !before.ended_written)),
{
}

/// What is opened starts at the moment that was asked for: the file begins with
/// the segment that holds it, and the player starts as far into the file as the
/// moment is behind what the file leaves out. Each file has its own name.
pub proof fn law_playback_starts_at_the_moment(
    list: PlaylistView,
    label: Seq<char>,
    serial: u32,
    at: int,
    r: Chunk,
    base: int,
)
    requires
        opens_at(list, label, serial, at, r, base),
        0 <= at <= u64::MAX,
        span::is_before(at, playlist::length_of(list.segments, list.segments.len() as int)),
        forall|i: int|
            0 <= i < list.segments.len() ==> span::is_forward((#[trigger] list.segments[i]).duration),
    ensures
        base + r.within == at,
        0 <= base,
        exists|first: int|
            0 <= first < list.segments.len() && playlist::length_of(list.segments, first)
                == Total::Finite(base) && #[trigger] span::is_before(
                at,
                playlist::length_of(list.segments, first + 1),
            ) && r.contents@ == playlist::rendered(list, first as nat),
        r.name@ == file_name(label, serial),
{
    let index = choose|index: int| #[trigger]
        playlist::located(list.segments, at, index, base) && index >= 0 && r.contents@
            == playlist::rendered(list, index as nat) && r.within == span::counted(
            Total::Finite(at - base),
        ) && r.name@ == file_name(label, serial);
    playlist::law_a_moment_is_found_in_its_segment(list.segments, at, index, base);
    playlist::lemma_forward(list.segments, index);
}

/// A recording is as long as its segments together, in thousandths, and grows
/// until it has ended.
pub proof fn law_a_recording_is_as_long_as_its_segments(list: PlaylistView, length: int)
    requires
        playlist::length_of(list.segments, list.segments.len() as int) == Total::Finite(length),
        0 <= length <= u64::MAX,
    ensures
        Extent::of(list).length_ms == length,
        Extent::of(list).growing == !list.ended,
{
}

} // verus!
