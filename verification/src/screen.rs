//! What each page has on screen: which controls are there, what they say, and
//! how a pane divides its cell.

use crate::browse;
use crate::browse::Tab;
use crate::channel_page;
use crate::helix;
use crate::helix::{LiveStream, Video};
use crate::layout;
use crate::layout::{Arrangement, Shape, Shares};
use crate::moment::Moment;
use crate::shell::Shell;
use crate::text;
use crate::watch;
use crate::watch::{Slot, Status};
use vstd::prelude::*;
use vstd::string::*;

verus! {

// ── The browse page ──────────────────────────────────────────────────

/// A tab's pill.
#[derive(Debug, Clone, Copy, PartialEq, Eq)]
pub struct TabPill {
    pub tab: Tab,
    pub label: &'static str,
    /// It is the list on screen.
    pub selected: bool,
}

/// The bar along the top of the browse page.
#[derive(Debug, Clone, PartialEq, Eq)]
pub struct BrowseHeader {
    /// The control that brings a folded rail back. Open, the rail has its own.
    pub expand: bool,
    /// How far sign-in has got.
    pub summary: String,
    pub tabs: Vec<TabPill>,
    /// The way back to what is playing.
    pub resume: Option<String>,
    pub refresh: &'static str,
}

pub open spec fn pill_of(tab: Tab, shown: Tab, pill: TabPill) -> bool {
    &&& pill.tab == tab
    &&& pill.selected == (tab == shown)
    &&& pill.label@ == match tab {
        Tab::Following => "following"@,
        Tab::Popular => "popular"@,
        Tab::Categories => "categories"@,
    }
}

fn tab_pill(tab: Tab, shown: Tab) -> (r: TabPill)
    ensures
        pill_of(tab, shown, r),
{
    TabPill { tab, label: tab.label(), selected: tab == shown }
}

impl Shell {
    pub fn browse_header(&self) -> (r: BrowseHeader)
        ensures
            r.expand == self.sidebar_collapsed,
            r.summary@ == self.sign_in.told(),
            r.tabs@.len() == 3,
            pill_of(Tab::Following, self.discovery.tab, r.tabs@[0]),
            pill_of(Tab::Popular, self.discovery.tab, r.tabs@[1]),
            pill_of(Tab::Categories, self.discovery.tab, r.tabs@[2]),
            r.resume is Some <==> self.panes.slots@.len() > 0,
            r.resume is Some ==> r.resume->0@ == "watching "@ + text::decimal(
                self.panes.slots@.len(),
            ),
            r.refresh@ == (if self.follows.refreshing {
                "refreshing…"@
            } else {
                "refresh"@
            }),
    {
        let shown = self.discovery.tab;
        let mut tabs: Vec<TabPill> = Vec::new();
        tabs.push(tab_pill(Tab::Following, shown));
        tabs.push(tab_pill(Tab::Popular, shown));
        tabs.push(tab_pill(Tab::Categories, shown));
        let resume = if self.panes.slots.len() > 0 {
            let mut label = "watching ".to_string();
            text::push_decimal(&mut label, self.panes.slots.len() as u64);
            Some(label)
        } else {
            None
        };
        BrowseHeader {
            expand: self.sidebar_collapsed,
            summary: self.sign_in.summary(),
            tabs,
            resume,
            refresh: if self.follows.refreshing {
                "refreshing…"
            } else {
                "refresh"
            },
        }
    }

    /// Whether the channel whose page is open is on right now, which is what its
    /// bar offers beside the recordings: the stream, or the chat.
    pub fn channel_is_live(&self) -> (r: bool)
        ensures
            r == (self.discovery.channel is Some && helix::stream_of(
                self.discovery.live_lists(self.follows.live@),
                self.discovery.channel->0.login@,
            ) is Some),
    {
        match &self.discovery.channel {
            Some(page) => self.discovery.stream_info(
                &self.follows.live,
                page.login.as_str(),
            ).is_some(),
            None => false,
        }
    }
}

/// The headings of the following tab: that of the live list, and that of the
/// offline one. A list alone on the page needs no heading over it but to say
/// that it is offline.
pub fn following_headings(live: usize, offline: usize) -> (r: (bool, bool))
    ensures
        r.0 == (live > 0 && offline > 0),
        r.1 == (offline > 0),
{
    (live > 0 && offline > 0, offline > 0)
}

/// What a search shows: whether it has channels, and how many of the categories
/// it found. Channels come first.
pub fn search_headings(results: &browse::SearchResults) -> (r: (bool, usize))
    ensures
        r.0 == (results.streams@.len() > 0),
        r.1 == (if results.categories@.len() < 12 {
            results.categories@.len()
        } else {
            12
        }),
{
    (results.streams.len() > 0, results.shown())
}

/// A live channel's card.
#[derive(Debug, Clone, PartialEq, Eq)]
pub struct StreamCard {
    pub login: String,
    pub name: String,
    pub title: String,
    pub game: String,
    /// How many watch, and for how long it has been up.
    pub watching: String,
    /// It can be opened beside what is playing.
    pub adds: bool,
}

pub open spec fn card_of(stream: LiveStream, now: Moment, can_add: bool, card: StreamCard) -> bool {
    &&& card.login@ == stream.user_login@
    &&& card.name@ == stream.display_name@
    &&& card.title@ == stream.title@
    &&& card.game@ == stream.game_name@
    &&& card.watching@ == browse::watching(stream, now)
    &&& card.adds == can_add
}

pub fn stream_card(stream: &LiveStream, now: &Moment, can_add: bool) -> (r: StreamCard)
    ensures
        card_of(*stream, *now, can_add, r),
{
    StreamCard {
        login: stream.user_login.clone(),
        name: stream.display_name.clone(),
        title: stream.title.clone(),
        game: stream.game_name.clone(),
        watching: browse::watching_at(stream, now),
        adds: can_add,
    }
}

/// The cards of a list, in its order.
pub fn stream_row(streams: &Vec<LiveStream>, now: &Moment, can_add: bool) -> (r: Vec<StreamCard>)
    ensures
        r@.len() == streams@.len(),
        forall|i: int|
            0 <= i < streams@.len() ==> card_of(streams@[i], *now, can_add, #[trigger] r@[i]),
{
    let mut out: Vec<StreamCard> = Vec::new();
    let mut i: usize = 0;
    while i < streams.len()
        invariant
            i <= streams@.len(),
            out@.len() == i,
            forall|k: int|
                0 <= k < i ==> card_of(streams@[k], *now, can_add, #[trigger] out@[k]),
        decreases streams@.len() - i,
    {
        out.push(stream_card(&streams[i], now, can_add));
        i = i + 1;
    }
    out
}

/// A recording's card.
#[derive(Debug, Clone, PartialEq, Eq)]
pub struct VideoCard {
    pub title: String,
    /// How long it is, or has been so far.
    pub corner: String,
    /// It is still being recorded, and the number in its corner still moves.
    pub live_dot: bool,
    /// When it was, and how many have seen it.
    pub line: String,
    pub adds: bool,
}

/// A recording's card, given the day that is said of it.
pub fn video_card(video: &Video, now: &Moment, shown: &Option<String>, can_add: bool) -> (r:
    VideoCard)
    requires
        now.representable(),
    ensures
        r.title@ == video.title@,
        r.corner@ == channel_page::corner_text(*video, *now),
        r.live_dot == channel_page::going(*video, *now),
        r.line@ == channel_page::card_text(*video, channel_page::read_text(*shown)),
        r.adds == can_add,
{
    VideoCard {
        title: video.title.clone(),
        corner: channel_page::corner(video, now),
        live_dot: channel_page::in_progress(video, now),
        line: channel_page::card_line(video, shown),
        adds: can_add,
    }
}

// ── What is playing while one browses ────────────────────────────────

/// One stream in the bar of what is playing.
#[derive(Debug, Clone, PartialEq, Eq)]
pub struct Mini {
    pub id: String,
    pub name: String,
    /// It has a picture.
    pub playing: bool,
}

pub open spec fn mini_of(shell: Shell, slot: Slot, mini: Mini) -> bool {
    &&& mini.id@ == "mini-"@ + slot.key@
    &&& mini.name@ == shell.playing_name(slot)
    &&& mini.playing == (slot.state is Playing)
}

impl Shell {
    /// What plays while one browses, or nothing at all where nothing does.
    pub fn now_playing(&self) -> (r: Option<Vec<Mini>>)
        ensures
            r is Some <==> self.panes.slots@.len() > 0 && self.miniplayer,
            r is Some ==> r->0@.len() == self.panes.slots@.len(),
            r is Some ==> forall|i: int|
                0 <= i < self.panes.slots@.len() ==> mini_of(
                    *self,
                    self.panes.slots@[i],
                    #[trigger] r->0@[i],
                ),
    {
        if !self.shows_now_playing() {
            return None;
        }
        let mut out: Vec<Mini> = Vec::new();
        let mut i: usize = 0;
        while i < self.panes.slots.len()
            invariant
                i <= self.panes.slots@.len(),
                out@.len() == i,
                forall|k: int|
                    0 <= k < i ==> mini_of(*self, self.panes.slots@[k], #[trigger] out@[k]),
            decreases self.panes.slots@.len() - i,
        {
            let slot = &self.panes.slots[i];
            out.push(
                Mini {
                    id: text::concat2("mini-", slot.key.as_str()),
                    name: self.now_playing_name(slot),
                    playing: slot.is_playing(),
                },
            );
            i = i + 1;
        }
        Some(out)
    }
}

// ── Notices ──────────────────────────────────────────────────────────

/// One notice, as it is drawn.
#[derive(Debug, Clone, PartialEq, Eq)]
pub struct ToastRow {
    pub id: u64,
    pub text: String,
    pub leaving: bool,
    /// Its text opens what it names.
    pub opens: bool,
    /// What it names can be opened beside what is playing.
    pub adds: bool,
}

impl Shell {
    /// The notices on screen, the oldest first.
    pub fn toast_stack(&self) -> (r: Vec<ToastRow>)
        ensures
            r@.len() == self.toasts.list@.len(),
            forall|i: int|
                0 <= i < r@.len() ==> {
                    let toast = self.toasts.list@[i];
                    &&& (#[trigger] r@[i]).id == toast.id
                    &&& r@[i].text@ == toast.text@
                    &&& r@[i].leaving == toast.leaving
                    &&& r@[i].opens == toast.watch is Some
                    &&& r@[i].adds == (toast.watch is Some && 0 < self.panes.slots@.len()
                        < watch::MAX_PANES)
                },
    {
        let can_add = self.panes.can_add();
        let mut out: Vec<ToastRow> = Vec::new();
        let mut i: usize = 0;
        while i < self.toasts.list.len()
            invariant
                i <= self.toasts.list@.len(),
                out@.len() == i,
                can_add == (0 < self.panes.slots@.len() < watch::MAX_PANES),
                forall|k: int|
                    0 <= k < i ==> {
                        let toast = self.toasts.list@[k];
                        &&& (#[trigger] out@[k]).id == toast.id
                        &&& out@[k].text@ == toast.text@
                        &&& out@[k].leaving == toast.leaving
                        &&& out@[k].opens == toast.watch is Some
                        &&& out@[k].adds == (toast.watch is Some && can_add)
                    },
            decreases self.toasts.list@.len() - i,
        {
            let toast = &self.toasts.list[i];
            let opens = toast.watch.is_some();
            out.push(
                ToastRow {
                    id: toast.id,
                    text: toast.text.clone(),
                    leaving: toast.leaving,
                    opens,
                    adds: opens && can_add,
                },
            );
            i = i + 1;
        }
        out
    }
}

// ── The watch page ───────────────────────────────────────────────────

impl Shell {
    /// What is known about what a pane shows. A recording's header speaks for
    /// the recording: the live numbers would be about another broadcast.
    pub fn pane_info(&self, index: usize) -> (r: Option<&LiveStream>)
        requires
            index < self.panes.slots@.len(),
        ensures
            ({
                let slot = self.panes.slots@[index as int];
                let known = helix::stream_of(
                    self.discovery.live_lists(self.follows.live@),
                    slot.channel@,
                );
                match r {
                    Some(stream) => slot.live() && known == Some(*stream),
                    None => !slot.live() || known is None,
                }
            }),
    {
        let slot = &self.panes.slots[index];
        if slot.is_live() {
            self.discovery.stream_info(&self.follows.live, slot.channel.as_str())
        } else {
            None
        }
    }
}

/// Where a pane's chat is.
#[derive(Debug, Clone, Copy, PartialEq, Eq, Structural)]
pub enum ChatPlace {
    /// There is none, or it is hidden: the header, and the picture under it.
    Nowhere,
    /// Beside the video, so wide.
    Beside { width: u32 },
    /// Under a video so high.
    Below { video_height: u64 },
}

/// What stands in a pane's video box.
#[derive(Debug, Clone, PartialEq, Eq)]
pub enum PaneBody {
    Player,
    Says(Status),
}

/// How one pane is drawn.
#[derive(Debug, Clone, PartialEq, Eq)]
pub struct PanePlan {
    pub body: PaneBody,
    pub chat: ChatPlace,
    /// Its header marks it as the pane that the keyboard acts on.
    pub marked: bool,
    pub closable: bool,
    /// Its header leaves room for the page's own control: without a chat it is
    /// at the top, and the first pane's corner is the page's.
    pub reserves_corner: bool,
}

pub open spec fn chat_place(
    slot: Slot,
    cell: Arrangement,
    shape: Shape,
    share: int,
    shares: Shares,
) -> ChatPlace {
    if slot.chat_hidden || !slot.has_chat {
        ChatPlace::Nowhere
    } else if cell.portrait {
        ChatPlace::Below {
            video_height: layout::box_height(
                cell.cell_width as int,
                cell.cell_height as int,
                shape,
                share,
                shares,
            ) as u64,
        }
    } else {
        ChatPlace::Beside { width: cell.chat_width }
    }
}

/// How a pane is drawn in its cell. `source` is the shape of the stream, once a
/// frame has said it.
pub fn pane(
    index: usize,
    slot: &Slot,
    cell: &Arrangement,
    active: bool,
    source: Option<Shape>,
    share: u32,
    shares: Shares,
) -> (r: PanePlan)
    requires
        shares.least <= shares.most,
    ensures
        r.body is Player <==> slot.state is Playing,
        r.body is Says ==> watch::status_of(*slot) == Some(r.body->Says_0@),
        r.chat == chat_place(
            *slot,
            *cell,
            match source {
                Some(shape) => shape,
                None => layout::video_shape(),
            },
            share as int,
            shares,
        ),
        r.marked == (cell.mark_active && active),
        r.closable == cell.closable,
        r.reserves_corner == (index == 0 && (slot.chat_hidden || !slot.has_chat)),
{
    let body = match watch::status_message(slot) {
        Some(status) => PaneBody::Says(status),
        None => PaneBody::Player,
    };
    let chatless = slot.chatless();
    let shape = match source {
        Some(shape) => shape,
        None => Shape { wide: 16, high: 9 },
    };
    let chat = if chatless {
        ChatPlace::Nowhere
    } else if cell.portrait {
        ChatPlace::Below {
            video_height: layout::stacked_video_height(
                cell.cell_width,
                cell.cell_height,
                shape,
                share,
                shares,
            ),
        }
    } else {
        ChatPlace::Beside { width: cell.chat_width }
    };
    PanePlan {
        body,
        chat,
        marked: cell.mark_active && active,
        closable: cell.closable,
        reserves_corner: index == 0 && chatless,
    }
}

/// Chat is nowhere where it is hidden or there is none, below the video in a
/// tall cell, and beside it in any other.
pub proof fn law_chat_has_its_place(
    slot: Slot,
    cell: Arrangement,
    shape: Shape,
    share: int,
    shares: Shares,
)
    ensures
        chat_place(slot, cell, shape, share, shares) is Nowhere <==> slot.chat_hidden
            || !slot.has_chat,
        chat_place(slot, cell, shape, share, shares) is Below <==> !slot.chat_hidden
            && slot.has_chat && cell.portrait,
        chat_place(slot, cell, shape, share, shares) matches ChatPlace::Beside { width } ==> width
            == cell.chat_width,
{
}

/// A tab is marked exactly while it shows, and a card is about its stream.
pub proof fn law_what_is_on_screen_is_what_it_says(
    tab: Tab,
    shown: Tab,
    pill: TabPill,
    stream: LiveStream,
    now: Moment,
    can_add: bool,
    card: StreamCard,
    shell: Shell,
    slot: Slot,
    mini: Mini,
)
    ensures
        pill_of(tab, shown, pill) ==> pill.tab == tab && (pill.selected <==> tab == shown),
        pill_of(Tab::Following, shown, pill) ==> pill.label@ == "following"@,
        pill_of(Tab::Popular, shown, pill) ==> pill.label@ == "popular"@,
        pill_of(Tab::Categories, shown, pill) ==> pill.label@ == "categories"@,
        card_of(stream, now, can_add, card) ==> card.login@ == stream.user_login@ && card.name@
            == stream.display_name@ && card.title@ == stream.title@ && card.game@
            == stream.game_name@ && card.adds == can_add && card.watching@ == browse::watching(
            stream,
            now,
        ),
        mini_of(shell, slot, mini) ==> (mini.playing <==> slot.state is Playing) && mini.name@
            == shell.playing_name(slot) && mini.id@ == "mini-"@ + slot.key@,
{
}

} // verus!
