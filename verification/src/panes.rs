//! Opening, restarting and closing panes: which there are, which of them the
//! keyboard acts on, and what becomes of each as its stream starts and stops.

use crate::helix;
use crate::helix::{Video, VideoKind};
use crate::moment::Moment;
use crate::playlist::Playlist;
use crate::quality;
use crate::quality::QualityView;
use crate::settings::{QualityPreference, Settings};
use crate::streamlink::StreamOptions;
use crate::text;
use crate::watch;
use crate::watch::{Slot, Source, StreamState, MAX_PANES};
use crate::worker::StreamEvent;
use vstd::prelude::*;
use vstd::string::*;

verus! {

#[derive(Debug, Clone, Copy, PartialEq, Eq, Structural)]
pub enum Page {
    Browse,
    Watch,
}

/// The panes, and which page they are on.
#[derive(Debug, Clone)]
pub struct Panes {
    pub page: Page,
    pub slots: Vec<Slot>,
    /// Which pane the keyboard acts on, held as a pane's key rather than its
    /// position: closing a pane moves every pane behind it.
    pub active: Option<String>,
}

/// What came of opening a pane.
#[derive(Debug, Clone, Copy, PartialEq, Eq, Structural)]
pub enum Opening {
    /// It was open already, and is left to play on.
    Existing,
    /// There is no room for it.
    Full,
    /// It is new, the last of the panes, and its stream is to be started.
    New,
}

/// Why a player stopped on its own.
#[derive(Debug, Clone, PartialEq, Eq)]
pub enum Stopped {
    Ended,
    Failed(String),
}

/// What a player is handed.
#[derive(Debug, Clone)]
pub enum Playback {
    /// The relay of a live stream.
    Live { url: String },
    /// A recording's playlist, where to open it in milliseconds, and what to
    /// call it.
    Vod { playlist: Playlist, start_at: u64, label: String },
}

/// Where a pane with this key stands: the first of them.
pub open spec fn place_of(slots: Seq<Slot>, key: Seq<char>) -> Option<int>
    decreases slots.len(),
{
    if slots.len() == 0 {
        None
    } else if slots[0].key@ == key {
        Some(0)
    } else {
        match place_of(slots.drop_first(), key) {
            Some(i) => Some(i + 1),
            None => None,
        }
    }
}

/// No two panes have the same key.
pub open spec fn distinct(slots: Seq<Slot>) -> bool {
    forall|i: int, j: int|
        0 <= i < j < slots.len() ==> (#[trigger] slots[i]).key@ != (#[trigger] slots[j]).key@
}

proof fn lemma_place_of(slots: Seq<Slot>, key: Seq<char>)
    ensures
        match place_of(slots, key) {
            Some(i) => 0 <= i < slots.len() && slots[i].key@ == key && forall|k: int|
                0 <= k < i ==> (#[trigger] slots[k]).key@ != key,
            None => forall|k: int| 0 <= k < slots.len() ==> (#[trigger] slots[k]).key@ != key,
        },
    decreases slots.len(),
{
    if slots.len() > 0 && slots[0].key@ != key {
        let rest = slots.drop_first();
        lemma_place_of(rest, key);
        match place_of(rest, key) {
            Some(i) => {
                assert forall|k: int| 0 <= k < i + 1 implies (#[trigger] slots[k]).key@ != key by {
                    if k > 0 {
                        assert(rest[k - 1].key@ != key);
                    }
                }
            },
            None => {
                assert forall|k: int| 0 <= k < slots.len() implies (#[trigger] slots[k]).key@
                    != key by {
                    if k > 0 {
                        assert(rest[k - 1].key@ != key);
                    }
                }
            },
        }
    }
}

/// [`place_of`], for every key.
pub proof fn lemma_places(slots: Seq<Slot>)
    ensures
        forall|key: Seq<char>|
            match #[trigger] place_of(slots, key) {
                Some(i) => 0 <= i < slots.len() && slots[i].key@ == key,
                None => forall|k: int| 0 <= k < slots.len() ==> (#[trigger] slots[k]).key@ != key,
            },
{
    assert forall|key: Seq<char>|
        match #[trigger] place_of(slots, key) {
            Some(i) => 0 <= i < slots.len() && slots[i].key@ == key,
            None => forall|k: int| 0 <= k < slots.len() ==> (#[trigger] slots[k]).key@ != key,
        } by {
        lemma_place_of(slots, key);
    }
}

// ── What a pane is opened with ───────────────────────────────────────

/// A pane that has just been opened.
pub open spec fn fresh(slot: Slot) -> bool {
    &&& slot.quality_override is None
    &&& slot.state is Starting
    &&& !slot.served
    &&& !slot.hovered
    &&& slot.stalled_at is None
}

/// A pane for a channel's stream.
pub fn live_slot(channel: String, chat_hidden: bool) -> (r: Slot)
    ensures
        fresh(r),
        r.key == channel,
        r.channel == channel,
        r.live(),
        r.has_chat,
        r.resume_at == 0,
        r.chat_hidden == chat_hidden,
{
    Slot {
        key: channel.clone(),
        channel,
        source: Source::Live,
        quality_override: None,
        state: StreamState::Starting,
        has_chat: true,
        resume_at: 0,
        served: false,
        hovered: false,
        chat_hidden,
        stalled_at: None,
    }
}

/// A pane for a recording, from `start_at` milliseconds in. Only a whole past
/// broadcast has a chat to replay: a highlight is cut from ranges of one, so
/// its offsets mean nothing.
pub fn video_slot(video: Box<Video>, start_at: u64, chat_hidden: bool) -> (r: Slot)
    ensures
        fresh(r),
        r.key@ == watch::recording_key(video.id@),
        r.channel == video.user_login,
        r.source == Source::Video(video),
        r.has_chat == (video.kind is Archive),
        r.resume_at == start_at,
        r.chat_hidden == chat_hidden,
{
    let has_chat = match video.kind {
        VideoKind::Archive => true,
        _ => false,
    };
    Slot {
        key: Slot::video_key(video.id.as_str()),
        channel: video.user_login.clone(),
        source: Source::Video(video),
        quality_override: None,
        state: StreamState::Starting,
        has_chat,
        resume_at: start_at,
        served: false,
        hovered: false,
        chat_hidden,
        stalled_at: None,
    }
}

impl Panes {
    /// At most four panes, no two with the same key, each knowing since when it
    /// has had nothing to play; and a watch page has something on it.
    pub open spec fn sound(self) -> bool {
        &&& self.slots@.len() <= MAX_PANES
        &&& distinct(self.slots@)
        &&& forall|i: int| 0 <= i < self.slots@.len() ==> (#[trigger] self.slots@[i]).sound()
        &&& self.page is Watch ==> self.slots@.len() > 0
    }

    pub fn new() -> (r: Panes)
        ensures
            r.page is Browse,
            r.slots@.len() == 0,
            r.active is None,
            r.sound(),
    {
        Panes { page: Page::Browse, slots: Vec::new(), active: None }
    }

    pub fn slot_index(&self, key: &str) -> (r: Option<usize>)
        ensures
            match r {
                Some(i) => place_of(self.slots@, key@) == Some(i as int) && i < self.slots@.len()
                    && self.slots@[i as int].key@ == key@,
                None => place_of(self.slots@, key@) is None,
            },
    {
        let mut i: usize = 0;
        proof {
            lemma_place_of(self.slots@, key@);
        }
        while i < self.slots.len()
            invariant
                i <= self.slots@.len(),
                forall|k: int| 0 <= k < i ==> (#[trigger] self.slots@[k]).key@ != key@,
                match place_of(self.slots@, key@) {
                    Some(j) => 0 <= j < self.slots@.len() && self.slots@[j].key@ == key@
                        && forall|k: int|
                        0 <= k < j ==> (#[trigger] self.slots@[k]).key@ != key@,
                    None => forall|k: int|
                        0 <= k < self.slots@.len() ==> (#[trigger] self.slots@[k]).key@ != key@,
                },
            decreases self.slots.len() - i,
        {
            if text::same(self.slots[i].key.as_str(), key) {
                return Some(i);
            }
            i += 1;
        }
        None
    }

    // ── Opening and closing ──────────────────────────────────────────

    /// What opening a pane does: one that is open already stays as it is, and
    /// becomes the only one where it is to be alone; a new one becomes the only
    /// one, or goes behind the others as long as there is room.
    pub open spec fn opens(self, slot: Slot, solo: bool, after: Panes, r: Opening) -> bool {
        &&& after.page is Watch
        &&& match place_of(self.slots@, slot.key@) {
            Some(i) => {
                &&& r is Existing
                &&& after.active == self.active
                &&& after.slots@ == (if solo {
                    seq![self.slots@[i]]
                } else {
                    self.slots@
                })
            },
            None => if solo {
                &&& r is New
                &&& after.slots@ == seq![slot]
                &&& after.active == Some(slot.key)
            } else if self.slots@.len() >= MAX_PANES {
                &&& r is Full
                &&& after.slots@ == self.slots@
                &&& after.active == self.active
            } else {
                &&& r is New
                &&& after.slots@ == self.slots@.push(slot)
                &&& after.active == Some(slot.key)
            },
        }
    }

    /// Open a pane. With `solo`, it becomes the only one; otherwise it is added
    /// beside whatever is already playing.
    pub fn open(&mut self, slot: Slot, solo: bool) -> (r: Opening)
        requires
            old(self).sound(),
            slot.sound(),
        ensures
            old(self).opens(slot, solo, *final(self), r),
            final(self).sound(),
    {
        self.page = Page::Watch;
        proof {
            lemma_place_of(self.slots@, slot.key@);
        }
        match self.slot_index(slot.key.as_str()) {
            Some(i) => {
                if solo {
                    let kept = self.slots.swap_remove(i);
                    let mut slots: Vec<Slot> = Vec::new();
                    slots.push(kept);
                    assert(slots@ =~= seq![kept]);
                    self.slots = slots;
                }
                Opening::Existing
            },
            None => {
                if solo {
                    self.slots.clear();
                } else if self.slots.len() >= MAX_PANES {
                    return Opening::Full;
                }
                let key = slot.key.clone();
                let ghost before = self.slots@;
                self.slots.push(slot);
                assert(solo ==> self.slots@ =~= seq![slot]);
                assert forall|i: int| 0 <= i < self.slots@.len() implies (
                #[trigger] self.slots@[i]).sound() by {
                    if i < before.len() {
                        assert(before[i] == self.slots@[i]);
                    }
                }
                self.active = Some(key);
                Opening::New
            },
        }
    }

    /// Open a channel's stream.
    pub fn open_channel(&mut self, channel: String, solo: bool, chat_hidden: bool) -> (r: Opening)
        requires
            old(self).sound(),
        ensures
            exists|slot: Slot|
                slot.key == channel && slot.channel == channel && slot.live() && fresh(slot)
                    && slot.has_chat && slot.chat_hidden == chat_hidden && slot.resume_at == 0
                    && #[trigger] old(self).opens(slot, solo, *final(self), r),
            final(self).sound(),
    {
        let slot = live_slot(channel, chat_hidden);
        let ghost opened = slot;
        let r = self.open(slot, solo);
        assert(old(self).opens(opened, solo, *self, r));
        r
    }

    /// Open a recording, from `start_at` milliseconds in.
    pub fn open_video_at(&mut self, video: Box<Video>, solo: bool, start_at: u64, chat_hidden: bool)
        -> (r: Opening)
        requires
            old(self).sound(),
        ensures
            exists|slot: Slot|
                slot.key@ == watch::recording_key(video.id@) && slot.channel == video.user_login
                    && slot.source == Source::Video(video) && fresh(slot) && slot.has_chat == (
                video.kind is Archive) && slot.chat_hidden == chat_hidden && slot.resume_at
                    == start_at && #[trigger] old(self).opens(slot, solo, *final(self), r),
            final(self).sound(),
    {
        let slot = video_slot(video, start_at, chat_hidden);
        let ghost opened = slot;
        let r = self.open(slot, solo);
        assert(old(self).opens(opened, solo, *self, r));
        r
    }

    /// Close a pane. With the last one gone, there is nothing to watch.
    pub fn close_slot(&mut self, index: usize)
        requires
            old(self).sound(),
        ensures
            final(self).slots@ == (if index < old(self).slots@.len() {
                old(self).slots@.remove(index as int)
            } else {
                old(self).slots@
            }),
            final(self).page == (if final(self).slots@.len() == 0 {
                Page::Browse
            } else {
                old(self).page
            }),
            final(self).active == old(self).active,
            final(self).sound(),
    {
        if index < self.slots.len() {
            let ghost before = self.slots@;
            let _ = self.slots.remove(index);
            proof {
                let after = self.slots@;
                assert forall|i: int, j: int| 0 <= i < j < after.len() implies (
                #[trigger] after[i]).key@ != (#[trigger] after[j]).key@ by {
                    let x = if i < index {
                        i
                    } else {
                        i + 1
                    };
                    let y = if j < index {
                        j
                    } else {
                        j + 1
                    };
                    assert(before[x].key@ != before[y].key@);
                }
                assert forall|i: int| 0 <= i < after.len() implies (#[trigger] after[i]).sound() by {
                    let x = if i < index {
                        i
                    } else {
                        i + 1
                    };
                    assert(before[x].sound());
                }
            }
        }
        if self.slots.len() == 0 {
            self.page = Page::Browse;
        }
    }

    /// Leave the watch page. With the miniplayer on, the streams keep going as
    /// muted thumbnails; with it off they stop.
    pub fn go_browse(&mut self, miniplayer: bool)
        requires
            old(self).sound(),
        ensures
            final(self).page is Browse,
            final(self).active == old(self).active,
            final(self).slots@ == (if miniplayer {
                old(self).slots@
            } else {
                Seq::empty()
            }),
            final(self).sound(),
    {
        self.page = Page::Browse;
        if !miniplayer {
            self.slots.clear();
        }
    }

    /// Go back to watching, where there is anything to watch. Whether the
    /// panes come to the front.
    pub fn go_watch(&mut self) -> (r: bool)
        requires
            old(self).sound(),
        ensures
            r == (old(self).slots@.len() > 0),
            *final(self) == (Panes {
                page: if r {
                    Page::Watch
                } else {
                    old(self).page
                },
                ..*old(self)
            }),
            final(self).sound(),
    {
        if self.slots.len() == 0 {
            return false;
        }
        self.page = Page::Watch;
        true
    }

    pub fn stop_all(&mut self)
        ensures
            final(self).page is Browse,
            final(self).slots@.len() == 0,
            final(self).active == old(self).active,
            final(self).sound(),
    {
        self.slots.clear();
        self.page = Page::Browse;
    }

    /// Whether opening something beside what is playing is worth offering:
    /// only when something is playing, and there is room for another.
    pub fn can_add(&self) -> (r: bool)
        ensures
            r == (0 < self.slots@.len() < MAX_PANES),
    {
        self.slots.len() > 0 && self.slots.len() < MAX_PANES
    }

    // ── The pane the keyboard acts on ────────────────────────────────

    /// The pane a shortcut acts on: the last one pointed at, or the first if
    /// the pointer has not been in one of these.
    pub open spec fn current(self) -> Option<int> {
        let pointed = match self.active {
            Some(key) => place_of(self.slots@, key@),
            None => None,
        };
        if pointed is Some {
            pointed
        } else if self.slots@.len() > 0 {
            Some(0)
        } else {
            None
        }
    }

    pub fn active_slot(&self) -> (r: Option<usize>)
        ensures
            match r {
                Some(i) => self.current() == Some(i as int) && i < self.slots@.len(),
                None => self.current() is None && self.slots@.len() == 0,
            },
    {
        match &self.active {
            Some(key) => {
                let found = self.slot_index(key.as_str());
                if found.is_some() {
                    return found;
                }
            },
            None => {},
        }
        if self.slots.len() > 0 {
            Some(0)
        } else {
            None
        }
    }

    /// Point the keyboard at pane `index`.
    pub fn activate(&mut self, index: usize)
        ensures
            *final(self) == (Panes {
                active: if index < old(self).slots@.len() {
                    Some(old(self).slots@[index as int].key)
                } else {
                    old(self).active
                },
                ..*old(self)
            }),
    {
        if index < self.slots.len() {
            self.active = Some(self.slots[index].key.clone());
        }
    }

    /// Move the active pane along the grid, forwards or backwards, wrapping at
    /// either end.
    pub fn step_active(&mut self, forwards: bool)
        ensures
            *final(self) == (Panes {
                active: match old(self).current() {
                    Some(at) => Some(
                        old(self).slots@[(if forwards {
                            at + 1
                        } else {
                            at - 1
                        }) % old(self).slots@.len() as int].key,
                    ),
                    None => old(self).active,
                },
                ..*old(self)
            }),
    {
        match self.active_slot() {
            Some(at) => {
                let count: usize = self.slots.len();
                let next: usize = if forwards {
                    if at + 1 < count {
                        at + 1
                    } else {
                        0
                    }
                } else if at > 0 {
                    at - 1
                } else {
                    count - 1
                };
                proof {
                    lemma_wraps(at as int, count as int, forwards);
                }
                self.active = Some(self.slots[next].key.clone());
            },
            None => {},
        }
    }

    /// The pointer came over pane `index`'s video, or left it. Whether anything
    /// changed. The pane the pointer came over is the one meant from then on,
    /// also once the pointer has left.
    pub fn hover(&mut self, index: usize, hovered: bool) -> (r: bool)
        requires
            old(self).sound(),
        ensures
            r == (index < old(self).slots@.len() && old(self).slots@[index as int].hovered
                != hovered),
            !r ==> *final(self) == *old(self),
            r ==> {
                &&& final(self).page == old(self).page
                &&& final(self).slots@ == old(self).slots@.update(
                    index as int,
                    Slot { hovered, ..old(self).slots@[index as int] },
                )
                &&& final(self).active == (if hovered {
                    Some(old(self).slots@[index as int].key)
                } else {
                    old(self).active
                })
            },
            final(self).sound(),
    {
        if index >= self.slots.len() || self.slots[index].hovered == hovered {
            return false;
        }
        let ghost before = self.slots@;
        self.slots[index].hovered = hovered;
        assert(self.slots@ =~= before.update(
            index as int,
            Slot { hovered, ..before[index as int] },
        ));
        if hovered {
            self.active = Some(self.slots[index].key.clone());
        }
        true
    }

    /// Whether the pointer is over any pane's video, which is what shows the
    /// page's navigation.
    pub fn over_video(&self) -> (r: bool)
        ensures
            r == exists|i: int| 0 <= i < self.slots@.len() && (#[trigger] self.slots@[i]).hovered,
    {
        let mut i: usize = 0;
        while i < self.slots.len()
            invariant
                i <= self.slots@.len(),
                forall|k: int| 0 <= k < i ==> !(#[trigger] self.slots@[k]).hovered,
            decreases self.slots.len() - i,
        {
            if self.slots[i].hovered {
                return true;
            }
            i += 1;
        }
        false
    }
}

proof fn lemma_wraps(at: int, count: int, forwards: bool)
    requires
        0 <= at < count,
    ensures
        forwards ==> (at + 1) % count == (if at + 1 < count {
            at + 1
        } else {
            0
        }),
        !forwards ==> (at - 1) % count == (if at > 0 {
            at - 1
        } else {
            count - 1
        }),
{
    if forwards {
        if at + 1 < count {
            vstd::arithmetic::div_mod::lemma_small_mod((at + 1) as nat, count as nat);
        } else {
            vstd::arithmetic::div_mod::lemma_mod_self_0(count);
        }
    } else {
        if at > 0 {
            vstd::arithmetic::div_mod::lemma_small_mod((at - 1) as nat, count as nat);
        } else {
            vstd::arithmetic::div_mod::lemma_mod_add_multiples_vanish(-1, count);
            vstd::arithmetic::div_mod::lemma_small_mod((count - 1) as nat, count as nat);
        }
    }
}

// ── Streams ──────────────────────────────────────────────────────────

/// What streamlink is asked for a pane: the quality picked for it, or else the
/// saved preference, and the cookie.
pub open spec fn options_of(slot: Slot, settings: Settings) -> StreamOptions {
    StreamOptions {
        quality: if slot.quality_override is Some {
            slot.quality_override
        } else {
            match settings.quality {
                QualityPreference::Auto => None,
                QualityPreference::Fixed(name) => Some(name),
            }
        },
        auth_token: settings.credentials.auth_token,
    }
}

pub fn stream_options(slot: &Slot, settings: &Settings) -> (r: StreamOptions)
    ensures
        r == options_of(*slot, *settings),
{
    let quality = match &slot.quality_override {
        Some(name) => Some(name.clone()),
        None => match &settings.quality {
            QualityPreference::Auto => None,
            QualityPreference::Fixed(name) => Some(name.clone()),
        },
    };
    StreamOptions { quality, auth_token: helix::copy_option(&settings.credentials.auth_token) }
}

/// The level a pane's stream starts at: the one given for this session, or the
/// one remembered for the channel.
pub fn stream_volume(slot: &Slot, settings: &Settings, volume_override: Option<u8>) -> (r: u8)
    ensures
        r == (match volume_override {
            Some(volume) => volume,
            None => settings.starts_at(slot.channel@),
        }),
{
    match volume_override {
        Some(volume) => volume,
        None => settings.volume_for(slot.channel.as_str()),
    }
}

/// One pane was replaced by another with the same key.
pub open spec fn replaced(before: Panes, index: int, slot: Slot, after: Panes) -> bool {
    &&& after.page == before.page
    &&& after.active == before.active
    &&& after.slots@ == before.slots@.update(index, slot)
}

proof fn lemma_replaced(before: Panes, index: int, slot: Slot, after: Panes)
    requires
        before.sound(),
        0 <= index < before.slots@.len(),
        slot.key == before.slots@[index].key,
        slot.sound(),
        replaced(before, index, slot, after),
    ensures
        after.sound(),
{
    let a = before.slots@;
    let b = after.slots@;
    assert forall|i: int, j: int| 0 <= i < j < b.len() implies (#[trigger] b[i]).key@ != (
    #[trigger] b[j]).key@ by {
        assert(a[i].key@ != a[j].key@);
    }
    assert forall|i: int| 0 <= i < b.len() implies (#[trigger] b[i]).sound() by {
        assert(a[i].sound());
    }
}

/// What the player is handed once a pane's stream is ready: the relay for a
/// live stream, or the recording's playlist and where to open it. A recording
/// that comes without one cannot be played.
pub open spec fn plays(
    slot: Slot,
    url: String,
    quality: String,
    playlist: Option<Playlist>,
    r: Option<Playback>,
) -> bool {
    match slot.source {
        Source::Live => r == Some(Playback::Live { url }),
        Source::Video(video) => match playlist {
            Some(playlist) => {
                &&& r is Some
                &&& r->0 is Vod
                &&& r->0->Vod_playlist == playlist
                &&& r->0->Vod_start_at == slot.resume_at
                &&& r->0->Vod_label@ == video.id@ + "-"@ + quality@
            },
            None => r is None,
        },
    }
}

/// What streamlink's progress changes about a pane, and what it hands the
/// player. A pane that is ready changes only once its player has started.
pub open spec fn progressed(
    slot: Slot,
    event: StreamEvent,
    now: Moment,
    after: Slot,
    r: Option<Playback>,
) -> bool {
    match event {
        StreamEvent::Resolving => r is None && after == slot.moved(StreamState::Starting, now),
        StreamEvent::Ready { url, quality, playlist, .. } => {
            &&& plays(slot, url, quality, playlist, r)
            &&& if r is Some {
                after == slot
            } else {
                &&& after.state is Failed
                &&& after.state->Failed_0@ == "the recording came without a playlist"@
                &&& after == slot.moved(after.state, now)
            }
        },
        StreamEvent::Offline => r is None && after == slot.moved(StreamState::Offline, now),
        StreamEvent::Failed { reason } => r is None && after == slot.moved(
            StreamState::Failed(reason),
            now,
        ),
    }
}

impl Panes {
    /// Streamlink has been started for a pane.
    pub fn serve(&mut self, index: usize)
        requires
            old(self).sound(),
            index < old(self).slots@.len(),
        ensures
            replaced(
                *old(self),
                index as int,
                Slot { served: true, ..old(self).slots@[index as int] },
                *final(self),
            ),
            final(self).sound(),
    {
        let ghost before = *self;
        self.slots[index].served = true;
        proof {
            let slot = self.slots@[index as int];
            assert(self.slots@ =~= before.slots@.update(index as int, slot));
            lemma_replaced(before, index as int, slot, *self);
        }
    }

    /// Streamlink got further with a pane's stream. The pane is looked up by
    /// its key: panes close while streams are still starting, and an event for
    /// one that is gone changes nothing.
    pub fn apply_stream_event(&mut self, key: &str, event: StreamEvent, now: &Moment) -> (r: Option<
        Playback,
    >)
        requires
            old(self).sound(),
        ensures
            match place_of(old(self).slots@, key@) {
                Some(i) => replaced(*old(self), i, final(self).slots@[i], *final(self))
                    && progressed(old(self).slots@[i], event, *now, final(self).slots@[i], r),
                None => *final(self) == *old(self) && r is None,
            },
            final(self).sound(),
    {
        let ghost before = *self;
        let index: usize = match self.slot_index(key) {
            Some(index) => index,
            None => {
                return None;
            },
        };
        let r = match event {
            StreamEvent::Resolving => {
                self.slots[index].set_state_at(StreamState::Starting, now);
                None
            },
            StreamEvent::Ready { url, quality, available, playlist } => {
                match &self.slots[index].source {
                    Source::Live => Some(Playback::Live { url }),
                    Source::Video(video) => match playlist {
                        Some(playlist) => {
                            let label = text::concat3(video.id.as_str(), "-", quality.as_str());
                            let start_at: u64 = self.slots[index].resume_at;
                            Some(Playback::Vod { playlist, start_at, label })
                        },
                        None => {
                            let reason = "the recording came without a playlist".to_owned();
                            self.slots[index].set_state_at(StreamState::Failed(reason), now);
                            None
                        },
                    },
                }
            },
            StreamEvent::Offline => {
                self.slots[index].set_state_at(StreamState::Offline, now);
                None
            },
            StreamEvent::Failed { reason } => {
                self.slots[index].set_state_at(StreamState::Failed(reason), now);
                None
            },
        };
        proof {
            let slot = self.slots@[index as int];
            assert(self.slots@ =~= before.slots@.update(index as int, slot));
            lemma_replaced(before, index as int, slot, *self);
        }
        r
    }

    /// A pane's player has started, or could not be started.
    pub fn player_started(
        &mut self,
        key: &str,
        outcome: Result<(String, Vec<String>), String>,
        now: &Moment,
    )
        requires
            old(self).sound(),
        ensures
            match place_of(old(self).slots@, key@) {
                Some(i) => replaced(
                    *old(self),
                    i,
                    old(self).slots@[i].moved(
                        match outcome {
                            Ok((quality, available)) => StreamState::Playing { quality, available },
                            Err(reason) => StreamState::Failed(reason),
                        },
                        *now,
                    ),
                    *final(self),
                ),
                None => *final(self) == *old(self),
            },
            final(self).sound(),
    {
        let ghost before = *self;
        match self.slot_index(key) {
            Some(index) => {
                let state = match outcome {
                    Ok((quality, available)) => StreamState::Playing { quality, available },
                    Err(reason) => StreamState::Failed(reason),
                };
                self.slots[index].set_state_at(state, now);
                proof {
                    let slot = self.slots@[index as int];
                    assert(self.slots@ =~= before.slots@.update(index as int, slot));
                    lemma_replaced(before, index as int, slot, *self);
                }
            },
            None => {},
        }
    }

    /// A playing stream stopped on its own: the broadcast ended, or the player
    /// gave up on it. Its player and its streamlink go, and the pane keeps its
    /// chat. A recording that has finished starts again from the top, and one
    /// that failed from where it got to, which is `position` where it was
    /// playing.
    pub fn stream_stopped(
        &mut self,
        key: &str,
        reason: Stopped,
        position: Option<u64>,
        now: &Moment,
    )
        requires
            old(self).sound(),
        ensures
            match place_of(old(self).slots@, key@) {
                Some(i) => {
                    let slot = old(self).slots@[i];
                    replaced(*old(self), i, halted(slot, reason, position, *now), *final(self))
                },
                None => *final(self) == *old(self),
            },
            final(self).sound(),
    {
        let ghost before = *self;
        match self.slot_index(key) {
            Some(index) => {
                let playing = self.slots[index].is_playing();
                let (at, state): (u64, StreamState) = match reason {
                    Stopped::Ended => (0, StreamState::Ended),
                    Stopped::Failed(message) => {
                        let at: u64 = match position {
                            Some(position) => if playing {
                                position
                            } else {
                                0
                            },
                            None => 0,
                        };
                        (at, StreamState::Failed(message))
                    },
                };
                self.slots[index].resume_at = at;
                self.slots[index].served = false;
                self.slots[index].set_state_at(state, now);
                proof {
                    let slot = self.slots@[index as int];
                    assert(self.slots@ =~= before.slots@.update(index as int, slot));
                    lemma_replaced(before, index as int, slot, *self);
                }
            },
            None => {},
        }
    }

    /// Ask for a pane's stream again: after it stopped, or after the channel
    /// came back on. Which pane it is, where it is still open.
    pub fn retry_stream(&mut self, key: &str) -> (r: Option<usize>)
        requires
            old(self).sound(),
        ensures
            match place_of(old(self).slots@, key@) {
                Some(i) => r == Some(i as usize) && replaced(
                    *old(self),
                    i,
                    started_over(old(self).slots@[i]),
                    *final(self),
                ),
                None => r is None && *final(self) == *old(self),
            },
            final(self).sound(),
    {
        let ghost before = *self;
        match self.slot_index(key) {
            Some(index) => {
                self.slots[index].stalled_at = None;
                self.slots[index].state = StreamState::Starting;
                proof {
                    let slot = self.slots@[index as int];
                    assert(self.slots@ =~= before.slots@.update(index as int, slot));
                    lemma_replaced(before, index as int, slot, *self);
                }
                Some(index)
            },
            None => None,
        }
    }

    /// Start pane `index`'s stream over. A recording picks up where it was,
    /// which is `position` where it was playing.
    pub fn restart_stream(&mut self, index: usize, position: Option<u64>)
        requires
            old(self).sound(),
        ensures
            if index < old(self).slots@.len() {
                let slot = old(self).slots@[index as int];
                replaced(*old(self), index as int, restarted(slot, position), *final(self))
            } else {
                *final(self) == *old(self)
            },
            final(self).sound(),
    {
        let ghost before = *self;
        if index < self.slots.len() {
            if self.slots[index].is_playing() {
                match position {
                    Some(position) => {
                        self.slots[index].resume_at = position;
                    },
                    None => {},
                }
            }
            self.slots[index].stalled_at = None;
            self.slots[index].state = StreamState::Starting;
            proof {
                let slot = self.slots@[index as int];
                assert(self.slots@ =~= before.slots@.update(index as int, slot));
                lemma_replaced(before, index as int, slot, *self);
            }
        }
    }

    /// A quality was picked from a pane's own menu, or is to be forgotten. The
    /// stream is then to be started over.
    pub fn set_quality(&mut self, index: usize, name: Option<String>)
        requires
            old(self).sound(),
            index < old(self).slots@.len(),
        ensures
            replaced(
                *old(self),
                index as int,
                Slot { quality_override: name, ..old(self).slots@[index as int] },
                *final(self),
            ),
            final(self).sound(),
    {
        let ghost before = *self;
        self.slots[index].quality_override = name;
        proof {
            let slot = self.slots@[index as int];
            assert(self.slots@ =~= before.slots@.update(index as int, slot));
            lemma_replaced(before, index as int, slot, *self);
        }
    }

    /// Show or hide the active pane's chat. What is hidden is remembered for
    /// the channel. A video whose chat cannot be replayed has none to show.
    pub fn toggle_chat(&mut self) -> (r: ChatToggle)
        requires
            old(self).sound(),
        ensures
            match old(self).current() {
                None => r is Nothing && *final(self) == *old(self),
                Some(i) => {
                    let slot = old(self).slots@[i];
                    if slot.has_chat {
                        &&& r == (ChatToggle::Changed {
                            channel: slot.channel,
                            hidden: !slot.chat_hidden,
                        })
                        &&& replaced(
                            *old(self),
                            i,
                            Slot { chat_hidden: !slot.chat_hidden, ..slot },
                            *final(self),
                        )
                    } else {
                        r is NoChat && *final(self) == *old(self)
                    }
                },
            },
            final(self).sound(),
    {
        let ghost before = *self;
        match self.active_slot() {
            Some(index) => {
                if !self.slots[index].has_chat {
                    return ChatToggle::NoChat;
                }
                let hidden = !self.slots[index].chat_hidden;
                self.slots[index].chat_hidden = hidden;
                proof {
                    let slot = self.slots@[index as int];
                    assert(self.slots@ =~= before.slots@.update(index as int, slot));
                    lemma_replaced(before, index as int, slot, *self);
                }
                ChatToggle::Changed { channel: self.slots[index].channel.clone(), hidden }
            },
            None => ChatToggle::Nothing,
        }
    }
}

/// What toggling the chat came to.
#[derive(Debug, Clone, PartialEq, Eq)]
pub enum ChatToggle {
    /// There is no pane.
    Nothing,
    /// The pane has no chat, and it is said so.
    NoChat,
    /// It is hidden now, or shown, which is remembered for the channel.
    Changed { channel: String, hidden: bool },
}

/// A pane whose stream stopped on its own.
pub open spec fn halted(slot: Slot, reason: Stopped, position: Option<u64>, now: Moment) -> Slot {
    Slot {
        resume_at: match reason {
            Stopped::Ended => 0,
            Stopped::Failed(_) => if slot.state is Playing && position is Some {
                position->0
            } else {
                0
            },
        },
        served: false,
        ..slot
    }.moved(
        match reason {
            Stopped::Ended => StreamState::Ended,
            Stopped::Failed(message) => StreamState::Failed(message),
        },
        now,
    )
}

/// A pane whose stream is started over, from where it was.
pub open spec fn restarted(slot: Slot, position: Option<u64>) -> Slot {
    started_over(
        Slot {
            resume_at: if slot.state is Playing && position is Some {
                position->0
            } else {
                slot.resume_at
            },
            ..slot
        },
    )
}

/// A pane whose stream was asked for again.
pub open spec fn started_over(slot: Slot) -> Slot {
    Slot { state: StreamState::Starting, stalled_at: None, ..slot }
}

// ── Choosing a quality again ─────────────────────────────────────────

/// The quality that is right for a pane of this height now.
pub open spec fn right_now(
    available: Seq<Seq<char>>,
    preference: QualityPreference,
    pane_height: int,
    q: Option<QualityView>,
) -> bool {
    match preference {
        QualityPreference::Auto => quality::selected(available, pane_height, q),
        QualityPreference::Fixed(name) => quality::preferred(available, name@, pane_height, q),
    }
}

/// The height a quality's name says, or none.
pub open spec fn height_of(name: Seq<char>) -> nat {
    match quality::named(name) {
        Some(q) => q.height as nat,
        None => 0,
    }
}

/// Whether a pane has a sharper stream to get than the one it plays. One whose
/// quality was picked by hand is left alone.
pub open spec fn gets_sharper(
    slot: Slot,
    preference: QualityPreference,
    pane_height: int,
    r: bool,
) -> bool {
    match slot.state {
        StreamState::Playing { quality, available } => if slot.quality_override is None {
            exists|q: Option<QualityView>|
                #[trigger] right_now(text::texts(available@), preference, pane_height, q) && r == (q
                    is Some && q->0.height > height_of(quality@))
        } else {
            !r
        },
        _ => !r,
    }
}

fn sharper(slot: &Slot, preference: &QualityPreference, pane_height: u32) -> (r: bool)
    ensures
        gets_sharper(*slot, *preference, pane_height as int, r),
{
    if slot.quality_override.is_some() {
        return false;
    }
    match &slot.state {
        StreamState::Playing { quality, available } => {
            let wanted = match preference {
                QualityPreference::Auto => quality::select(available.as_slice(), pane_height),
                QualityPreference::Fixed(name) => quality::select_named(
                    available.as_slice(),
                    name.as_str(),
                    pane_height,
                ),
            };
            let playing: u32 = match quality::parse_quality(quality.as_str()) {
                Some(q) => q.height,
                None => 0,
            };
            assert(right_now(
                text::texts(available@),
                *preference,
                pane_height as int,
                quality::seen(wanted),
            ));
            match wanted {
                Some(wanted) => wanted.height > playing,
                None => false,
            }
        },
        _ => false,
    }
}

impl Panes {
    /// The panes that are to be started over because their cell has a sharper
    /// stream to get: the choice is made again whenever the grid changes, and
    /// moves only upwards. A pane that has shrunk keeps what it has.
    pub fn sync_quality(&self, preference: &QualityPreference, pane_height: u32) -> (r: Vec<usize>)
        ensures
            forall|k: int| 0 <= k < r@.len() ==> (#[trigger] r@[k]) < self.slots@.len(),
            forall|j: int, k: int| 0 <= j < k < r@.len() ==> #[trigger] r@[j] < #[trigger] r@[k],
            forall|i: int|
                0 <= i < self.slots@.len() ==> gets_sharper(
                    #[trigger] self.slots@[i],
                    *preference,
                    pane_height as int,
                    r@.contains(i as usize),
                ),
    {
        let mut out: Vec<usize> = Vec::new();
        let mut i: usize = 0;
        let n: usize = self.slots.len();
        while i < n
            invariant
                i <= n,
                n == self.slots@.len(),
                forall|k: int| 0 <= k < out@.len() ==> (#[trigger] out@[k]) < i,
                forall|j: int, k: int|
                    0 <= j < k < out@.len() ==> #[trigger] out@[j] < #[trigger] out@[k],
                forall|k: int|
                    0 <= k < i ==> gets_sharper(
                        #[trigger] self.slots@[k],
                        *preference,
                        pane_height as int,
                        out@.contains(k as usize),
                    ),
            decreases n - i,
        {
            let ghost before = out@;
            let sharper = sharper(&self.slots[i], preference, pane_height);
            if sharper {
                out.push(i);
            }
            proof {
                assert forall|k: int| 0 <= k <= i implies gets_sharper(
                    #[trigger] self.slots@[k],
                    *preference,
                    pane_height as int,
                    out@.contains(k as usize),
                ) by {
                    if k < i {
                        if before.contains(k as usize) {
                            let j = choose|j: int|
                                0 <= j < before.len() && before[j] == k as usize;
                            assert(out@[j] == k as usize);
                        }
                        if out@.contains(k as usize) {
                            let j = choose|j: int| 0 <= j < out@.len() && out@[j] == k as usize;
                            assert(before[j] == k as usize);
                        }
                    } else if sharper {
                        assert(out@.last() == i);
                    } else if out@.contains(i) {
                        let j = choose|j: int| 0 <= j < out@.len() && out@[j] == i;
                        assert(out@[j] < i);
                    }
                }
            }
            i += 1;
        }
        out
    }
}

// ── Laws ─────────────────────────────────────────────────────────────

/// Unless there was no room for it, what was asked for is open afterwards.
pub proof fn law_what_was_opened_is_there(
    before: Panes,
    slot: Slot,
    solo: bool,
    after: Panes,
    r: Opening,
)
    requires
        before.opens(slot, solo, after, r),
        !(r is Full),
    ensures
        place_of(after.slots@, slot.key@) is Some,
        solo ==> after.slots@.len() == 1,
{
    lemma_place_of(before.slots@, slot.key@);
    lemma_place_of(after.slots@, slot.key@);
    if r is New {
        assert(after.slots@.last().key@ == slot.key@);
    } else {
        let i = place_of(before.slots@, slot.key@)->0;
        if solo {
            assert(after.slots@[0].key@ == slot.key@);
        } else {
            assert(after.slots@[i].key@ == slot.key@);
        }
    }
}

/// A pane that closes takes no other with it, and moves none to another stream.
pub proof fn law_closing_keeps_the_others(before: Seq<Slot>, index: int, key: Seq<char>)
    requires
        distinct(before),
        0 <= index < before.len(),
        key != before[index].key@,
        place_of(before, key) is Some,
    ensures
        place_of(before.remove(index), key) is Some,
        before.remove(index)[place_of(before.remove(index), key)->0] == before[place_of(
            before,
            key,
        )->0],
{
    let after = before.remove(index);
    lemma_place_of(before, key);
    lemma_place_of(after, key);
    let i = place_of(before, key)->0;
    let j = if i < index {
        i
    } else {
        i - 1
    };
    assert(after[j] == before[i]);
    let k = place_of(after, key)->0;
    let b = if k < index {
        k
    } else {
        k + 1
    };
    assert(after[k] == before[b]);
    if b != i {
        if b < i {
            assert(before[b].key@ != before[i].key@);
        } else {
            assert(before[i].key@ != before[b].key@);
        }
    }
}

/// A recording opens at the moment it was asked for: whatever moment its pane
/// was opened with is where the player is told to start, in the playlist that
/// came.
pub proof fn law_a_recording_opens_where_asked(
    before: Panes,
    slot: Slot,
    video: Box<Video>,
    solo: bool,
    start_at: u64,
    opened: Panes,
    r: Opening,
    url: String,
    quality: String,
    available: Vec<String>,
    playlist: Playlist,
    now: Moment,
    after: Slot,
    played: Option<Playback>,
)
    requires
        slot.source == Source::Video(video),
        slot.resume_at == start_at,
        before.opens(slot, solo, opened, r),
        r is New,
        progressed(
            opened.slots@[place_of(opened.slots@, slot.key@)->0],
            (StreamEvent::Ready { url, quality, available, playlist: Some(playlist) }),
            now,
            after,
            played,
        ),
    ensures
        place_of(opened.slots@, slot.key@) is Some,
        played is Some,
        played->0 is Vod,
        played->0->Vod_start_at == start_at,
        played->0->Vod_playlist == playlist,
        after.source == slot.source,
        after.resume_at == start_at,
{
    lemma_place_of(before.slots@, slot.key@);
    lemma_place_of(opened.slots@, slot.key@);
    assert(opened.slots@.last() == slot);
    let i = place_of(opened.slots@, slot.key@)->0;
    if i < opened.slots@.len() - 1 {
        assert(opened.slots@[i] == before.slots@[i]);
        assert(before.slots@[i].key@ != slot.key@);
    }
}

/// A recording that is started over while it plays goes on from where it was,
/// and one that is not playing from where it was to start.
pub proof fn law_a_restarted_recording_goes_on(
    slot: Slot,
    position: Option<u64>,
    url: String,
    quality: String,
    available: Vec<String>,
    playlist: Playlist,
    now: Moment,
    after: Slot,
    played: Option<Playback>,
)
    requires
        slot.source is Video,
        progressed(
            restarted(slot, position),
            (StreamEvent::Ready { url, quality, available, playlist: Some(playlist) }),
            now,
            after,
            played,
        ),
    ensures
        played is Some,
        played->0 is Vod,
        played->0->Vod_playlist == playlist,
        slot.state is Playing && position is Some ==> played->0->Vod_start_at == position->0,
        !(slot.state is Playing) || position is None ==> played->0->Vod_start_at == slot.resume_at,
        after.key == slot.key,
        after.channel == slot.channel,
        after.source == slot.source,
        after.quality_override == slot.quality_override,
        after.has_chat == slot.has_chat,
        after.chat_hidden == slot.chat_hidden,
        after.hovered == slot.hovered,
        after.state is Starting,
        after.stalled_at is None,
{
}

/// A recording that failed is tried again from where it got to, and one that
/// ended from its beginning; and a pane that only asks again keeps its place.
pub proof fn law_a_stopped_recording_is_tried_again(
    slot: Slot,
    reason: Stopped,
    position: Option<u64>,
    then: Moment,
    url: String,
    quality: String,
    available: Vec<String>,
    playlist: Playlist,
    now: Moment,
    after: Slot,
    played: Option<Playback>,
)
    requires
        slot.source is Video,
        progressed(
            started_over(halted(slot, reason, position, then)),
            (StreamEvent::Ready { url, quality, available, playlist: Some(playlist) }),
            now,
            after,
            played,
        ),
    ensures
        played is Some,
        played->0 is Vod,
        reason is Ended ==> played->0->Vod_start_at == 0,
        reason is Failed && slot.state is Playing && position is Some
            ==> played->0->Vod_start_at == position->0,
        halted(slot, reason, position, then).stalled_at == Some(then),
        reason is Ended <==> halted(slot, reason, position, then).state is Ended,
        reason is Failed ==> halted(slot, reason, position, then).state == StreamState::Failed(
            reason->Failed_0,
        ),
        !halted(slot, reason, position, then).served,
        started_over(slot).resume_at == slot.resume_at,
        after.key == slot.key,
        after.source == slot.source,
        after.channel == slot.channel,
        after.chat_hidden == slot.chat_hidden,
        after.quality_override == slot.quality_override,
{
}

/// A live stream is played from its relay, and a recording without a playlist
/// not at all; what streamlink says of the rest is what the pane says, from
/// that moment on.
pub proof fn law_a_pane_says_what_became_of_its_stream(
    slot: Slot,
    event: StreamEvent,
    now: Moment,
    after: Slot,
    played: Option<Playback>,
)
    requires
        progressed(slot, event, now, after, played),
    ensures
        event is Ready && slot.source is Live ==> played == Some(
            Playback::Live { url: event->url },
        ),
        event is Ready && slot.source is Video && event->playlist is None ==> played is None
            && after.state is Failed && after.stalled_at == Some(now),
        played is Some <==> event is Ready && (slot.source is Live || event->playlist is Some),
        played is Some ==> after == slot,
        event is Offline ==> after.state is Offline && after.stalled_at == Some(now),
        event is Failed ==> after.state == StreamState::Failed(event->reason) && after.stalled_at
            == Some(now),
        event is Resolving ==> after.state is Starting && after.stalled_at is None,
        after.key == slot.key,
        after.channel == slot.channel,
        after.source == slot.source,
        after.resume_at == slot.resume_at,
        after.quality_override == slot.quality_override,
        after.chat_hidden == slot.chat_hidden,
        after.served == slot.served,
{
}

/// What is opened beside others leaves each of them where it is, up to four in
/// all; what is opened alone leaves nothing else; and what is open already is
/// left as it is.
pub proof fn law_opening_disturbs_nothing_else(
    before: Panes,
    slot: Slot,
    solo: bool,
    after: Panes,
    r: Opening,
)
    requires
        before.opens(slot, solo, after, r),
        before.slots@.len() <= 4,
    ensures
        after.page is Watch,
        r is Existing <==> exists|i: int|
            0 <= i < before.slots@.len() && (#[trigger] before.slots@[i]).key@ == slot.key@,
        r is Full <==> !solo && before.slots@.len() == 4 && forall|i: int|
            0 <= i < before.slots@.len() ==> (#[trigger] before.slots@[i]).key@ != slot.key@,
        !solo ==> after.slots@.len() >= before.slots@.len() && forall|i: int|
            0 <= i < before.slots@.len() ==> #[trigger] after.slots@[i] == before.slots@[i],
        !solo && r is New ==> after.slots@.len() == before.slots@.len() + 1,
        !solo && !(r is New) ==> after.slots@.len() == before.slots@.len(),
        solo ==> after.slots@.len() == 1 && after.slots@[0].key@ == slot.key@,
        solo && r is Existing ==> exists|i: int|
            0 <= i < before.slots@.len() && after.slots@[0] == #[trigger] before.slots@[i],
        r is New ==> after.slots@.last() == slot && after.active == Some(slot.key),
        !(r is New) ==> after.active == before.active,
{
    lemma_place_of(before.slots@, slot.key@);
}

/// What streamlink is asked for: the quality picked for the pane, if one was,
/// else the saved one, if one was fixed, and the cookie that is saved.
pub proof fn law_a_picked_quality_is_asked_for(slot: Slot, settings: Settings, name: String)
    ensures
        slot.quality_override == Some(name) ==> options_of(slot, settings).quality == Some(name),
        slot.quality_override is None && settings.quality == QualityPreference::Fixed(name)
            ==> options_of(slot, settings).quality == Some(name),
        slot.quality_override is None && settings.quality is Auto ==> options_of(
            slot,
            settings,
        ).quality is None,
        options_of(slot, settings).auth_token == settings.credentials.auth_token,
{
}

/// A pane is only ever moved up: to a taller stream than the one it plays, which
/// is on offer, and never where its quality was picked by hand or where nothing
/// plays. With the choice left to the pane, no source as tall as its cell is
/// passed over.
pub proof fn law_quality_only_moves_up(
    slot: Slot,
    preference: QualityPreference,
    pane_height: int,
    r: bool,
    other: QualityView,
)
    requires
        gets_sharper(slot, preference, pane_height, r),
    ensures
        r ==> slot.state is Playing && slot.quality_override is None && exists|q: QualityView|
            quality::offers(text::texts(slot.state->available@), q) && (match quality::named(
                slot.state->quality@,
            ) {
                Some(playing) => q.height > playing.height,
                None => q.height > 0,
            }),
        slot.state is Playing && slot.quality_override is None && preference is Auto && pane_height
            > 0 && other.height == pane_height && quality::offers(
            text::texts(slot.state->available@),
            other,
        ) ==> r == (match quality::named(slot.state->quality@) {
            Some(playing) => pane_height > playing.height,
            None => true,
        }),
{
    if let StreamState::Playing { quality: playing, available } = slot.state {
        if slot.quality_override is None {
            let all = text::texts(available@);
            let q = choose|q: Option<QualityView>| #[trigger]
                right_now(all, preference, pane_height, q) && r == (q is Some && q->0.height
                    > height_of(playing@));
            if let QualityPreference::Fixed(name) = preference {
                quality::law_a_preference_never_fails(all, name@, pane_height, q);
            }
            if q is Some {
                assert(quality::offers(all, q->0));
            }
            if preference is Auto && pane_height > 0 && other.height == pane_height
                && quality::offers(all, other) {
                let i = choose|i: int|
                    0 <= i < all.len() && quality::named(#[trigger] all[i]) == Some(other);
                assert(quality::offers_any(all));
                quality::law_clean_ratios_come_first(all, pane_height, q->0, other);
            }
        }
    }
}

/// What a recording is saved under names it and the quality it plays in, so
/// that two qualities of it, or two recordings in one, are told apart.
pub proof fn law_a_label_names_the_recording_and_its_quality(
    slot: Slot,
    video: Box<Video>,
    url: String,
    quality: String,
    playlist: Playlist,
    r: Option<Playback>,
)
    requires
        slot.source == Source::Video(video),
        plays(slot, url, quality, Some(playlist), r),
    ensures
        r is Some && r->0 is Vod,
        ({
            let label = r->0->Vod_label@;
            let n = video.id@.len() as int;
            &&& label.len() == n + 1 + quality@.len()
            &&& label.take(n) == video.id@
            &&& label[n] == '-'
            &&& label.skip(n + 1) == quality@
        }),
{
    reveal_strlit("-");
    let label = r->0->Vod_label@;
    let n = video.id@.len() as int;
    assert(label.take(n) =~= video.id@);
    assert(label.skip(n + 1) =~= quality@);
}

/// While anything is open, some pane is the one that keys act on: the one that
/// was chosen, and where that is gone the first.
pub proof fn law_some_pane_is_the_current_one(panes: Panes)
    ensures
        panes.current() is None <==> panes.slots@.len() == 0,
        panes.current() matches Some(i) ==> 0 <= i < panes.slots@.len(),
        panes.active matches Some(key) ==> (forall|i: int|
            0 <= i < panes.slots@.len() && (#[trigger] panes.slots@[i]).key@ == key@
                ==> panes.current() is Some && panes.slots@[panes.current()->0].key@ == key@),
        (match panes.active {
            Some(key) => forall|i: int|
                0 <= i < panes.slots@.len() ==> (#[trigger] panes.slots@[i]).key@ != key@,
            None => true,
        }) && panes.slots@.len() > 0 ==> panes.current() == Some(0int),
{
    if let Some(key) = panes.active {
        lemma_place_of(panes.slots@, key@);
    }
}

} // verus!
