//! The shell: both pages, everything they show, and what each event, click
//! and key makes of it.
//!
//! What has to happen outside comes out as a value: a request for the worker,
//! a stream to start, a notice to put up.

use crate::browse::{Action, Discovery, SignIn};
use crate::browsing;
use crate::follows::{Arrivals, Follows};
use crate::helix::{Category, Video};
use crate::keys;
use crate::notices;
use crate::notices::{LinkFound, LinkOpening, LinkedVideo, Toasts};
use crate::palette::Command;
use crate::panes;
use crate::panes::{Opening, Page, Panes};
use crate::settings::{Changes, Settings};
use crate::text;
use crate::twitch::{Request, TwitchEvent};
use crate::watch;
use crate::watch::Slot;
use vstd::prelude::*;
use vstd::string::*;

verus! {

/// Everything the window shows.
#[derive(Debug, Clone)]
pub struct Shell {
    pub panes: Panes,
    pub follows: Follows,
    pub sign_in: SignIn,
    pub discovery: Discovery,
    pub toasts: Toasts,
    /// Recordings opened by link that are still to be looked up.
    pub links: Vec<LinkedVideo>,
    pub palette_open: bool,
    /// Which row Enter would run.
    pub palette_selected: usize,
    pub settings_open: bool,
    /// Whether the follows rail is folded away.
    pub sidebar_collapsed: bool,
    /// Whether streams keep going while one browses.
    pub miniplayer: bool,
    /// Which scheduled save is the newest.
    pub save_epoch: u64,
    /// Which run of window resizes is the newest.
    pub resize_epoch: u64,
}

/// What a worker's event comes to outside.
#[derive(Debug)]
pub enum Outcome {
    Nothing,
    /// Signed in: the page may have something to ask now, and so may the
    /// recordings named by a link.
    SignedIn { ask: Option<Request> },
    /// A list of who is live came: what to announce, and which panes to start
    /// again.
    Arrived(Arrivals),
    /// This is to be said.
    Say(String),
    /// A linked recording was looked up.
    Linked(LinkFound),
}

/// What a click or a command comes to outside.
#[derive(Debug)]
pub enum Deed {
    Nothing,
    /// A pane was opened, or not.
    Opened(Opening),
    /// Something is to be asked, or it was found that nobody can be asked.
    Ask(Option<Request>),
    /// A link was opened.
    Linked(LinkOpening),
    /// A pane closed, so those left have more of the window.
    Closed,
    /// The panes came to the front, or there were none.
    Watching(bool),
    /// The panes went to the back.
    Browsing,
    /// The settings sheet opened or closed.
    Settings,
    /// The rail folded or came back, which is remembered, and the panes changed
    /// their width.
    Sidebar,
}

impl Shell {
    /// What holds of every part.
    pub open spec fn sound(self) -> bool {
        &&& self.panes.sound()
        &&& self.follows.apart()
        &&& self.discovery.one_at_most()
        &&& self.toasts.sound()
    }

    pub fn new(sidebar_collapsed: bool, miniplayer: bool) -> (r: Shell)
        ensures
            r.sound(),
            r.panes.page is Browse,
            r.panes.slots@.len() == 0,
            r.panes.active is None,
            r.follows.live@.len() == 0,
            r.follows.offline@.len() == 0,
            r.follows.known_live@.len() == 0,
            r.follows.avatars@.len() == 0,
            !r.follows.refreshing,
            !r.follows.loaded,
            !r.follows.seeded,
            r.sign_in is Connecting,
            r.discovery.tab is Following,
            r.discovery.popular.items@.len() == 0,
            r.discovery.popular.next is None,
            r.discovery.categories.items@.len() == 0,
            r.discovery.categories.next is None,
            r.discovery.no_streams(),
            r.discovery.open is None,
            r.discovery.search is None,
            r.discovery.channel is None,
            r.discovery.error is None,
            !r.discovery.loading,
            r.toasts.list@.len() == 0,
            r.links@.len() == 0,
            !r.palette_open,
            r.palette_selected == 0,
            !r.settings_open,
            r.sidebar_collapsed == sidebar_collapsed,
            r.miniplayer == miniplayer,
            r.save_epoch == 0,
            r.resize_epoch == 0,
    {
        Shell {
            panes: Panes::new(),
            follows: Follows::default(),
            sign_in: SignIn::Connecting,
            discovery: Discovery::default(),
            toasts: Toasts::new(),
            links: Vec::new(),
            palette_open: false,
            palette_selected: 0,
            settings_open: false,
            sidebar_collapsed,
            miniplayer,
            save_epoch: 0,
            resize_epoch: 0,
        }
    }

    // ── The worker's events ──────────────────────────────────────────

    /// Only the browse page changed.
    pub open spec fn only_discovery(self, after: Shell) -> bool {
        after == (Shell { discovery: after.discovery, ..self })
    }

    /// Only the follows changed.
    pub open spec fn only_follows(self, after: Shell) -> bool {
        after == (Shell { follows: after.follows, ..self })
    }

    /// What each event of the worker changes: one pump, and every reply lands
    /// in the state it belongs to.
    pub open spec fn hears(self, event: TwitchEvent, after: Shell, r: Outcome) -> bool {
        let d = self.discovery;
        let e = after.discovery;
        match event {
            TwitchEvent::NeedsClientId => {
                &&& after == (Shell { sign_in: SignIn::NeedsClientId, ..self })
                &&& r is Nothing
            },
            TwitchEvent::AwaitingCode { user_code, verification_uri } => {
                &&& after == (Shell {
                    sign_in: SignIn::AwaitingCode { user_code, verification_uri },
                    ..self
                })
                &&& r is Nothing
            },
            TwitchEvent::SignedIn { login } => {
                &&& after == (Shell { sign_in: SignIn::SignedIn(login), discovery: e, ..self })
                &&& r is SignedIn
                &&& d.filled(true, e, r->ask)
            },
            TwitchEvent::Streams(streams) => {
                &&& self.only_follows(after)
                &&& r is Arrived
                &&& self.follows.arrives(
                    streams,
                    self.panes.slots@,
                    after.follows,
                    r->Arrived_0,
                )
            },
            TwitchEvent::FollowedChannels(channels) => {
                &&& self.only_follows(after)
                &&& r is Nothing
                &&& after.follows == (Follows {
                    offline: after.follows.offline,
                    refreshing: false,
                    loaded: true,
                    ..self.follows
                })
                &&& after.follows.offline@ == crate::follows::absent(
                    channels@,
                    text::texts(self.follows.known_live@),
                )
            },
            TwitchEvent::Avatars(images) => {
                &&& self.only_follows(after)
                &&& r is Nothing
                &&& after.follows == (Follows { avatars: after.follows.avatars, ..self.follows })
                &&& forall|login: Seq<char>| #[trigger]
                    crate::follows::picture(after.follows.avatars@, login) == (
                    if crate::follows::picture(images@, login) is Some {
                        crate::follows::picture(images@, login)
                    } else {
                        crate::follows::picture(self.follows.avatars@, login)
                    })
            },
            TwitchEvent::FollowsError(reason) => {
                &&& after == (Shell {
                    follows: Follows { refreshing: false, ..self.follows },
                    ..self
                })
                &&& if self.follows.refreshing {
                    r is Say && r->Say_0@ == "could not refresh: "@ + reason@
                } else {
                    r is Nothing
                }
            },
            TwitchEvent::Error(reason) => {
                &&& after == (Shell {
                    sign_in: SignIn::Error(reason),
                    follows: Follows { refreshing: false, ..self.follows },
                    ..self
                })
                &&& r is Nothing
            },
            TwitchEvent::Popular(page) => {
                &&& self.only_discovery(after)
                &&& r is Nothing
                &&& e == (Discovery { popular: e.popular, loading: false, ..d })
                &&& browsing::taken_in(d.popular, page, e.popular)
            },
            TwitchEvent::Categories(page) => {
                &&& self.only_discovery(after)
                &&& r is Nothing
                &&& e == (Discovery { categories: e.categories, loading: false, ..d })
                &&& browsing::taken_in(d.categories, page, e.categories)
            },
            TwitchEvent::CategoryStreams { category, streams } => {
                &&& self.only_discovery(after)
                &&& r is Nothing
                &&& e == (Discovery { streams: e.streams, loading: false, ..d })
                &&& if d.open is Some && d.open->0.id@ == category.id@ {
                    browsing::taken_in(d.streams, streams, e.streams)
                } else {
                    e.streams == d.streams
                }
            },
            TwitchEvent::SearchResults { query, categories, streams } => {
                &&& self.only_discovery(after)
                &&& r is Nothing
                &&& e == (Discovery {
                    search: if d.search is Some && d.search->0.query@ == query@ {
                        Some(crate::browse::SearchResults { query, categories, streams })
                    } else {
                        d.search
                    },
                    loading: false,
                    ..d
                })
            },
            TwitchEvent::Videos { login, user_id, videos } => {
                &&& self.only_discovery(after)
                &&& r is Nothing
                &&& e == (Discovery { channel: e.channel, loading: false, ..d })
                &&& if d.channel is Some && d.channel->0.login@ == login@ {
                    &&& e.channel is Some
                    &&& e.channel->0 == (crate::browse::ChannelPage {
                        user_id: Some(user_id),
                        videos: e.channel->0.videos,
                        ..d.channel->0
                    })
                    &&& browsing::taken_in(d.channel->0.videos, videos, e.channel->0.videos)
                } else {
                    e.channel == d.channel
                }
            },
            TwitchEvent::Video { id, result } => {
                &&& after == (Shell { links: after.links, ..self })
                &&& r is Linked
                &&& notices::looked_up(self.links@, id@, result, after.links@, r->Linked_0)
            },
            TwitchEvent::BrowseError(reason) => {
                &&& after == (Shell {
                    discovery: Discovery { error: Some(reason), loading: false, ..d },
                    ..self
                })
                &&& r is Nothing
            },
        }
    }

    #[verifier::spinoff_prover]
    #[verifier::rlimit(60)]
    pub fn apply_twitch_event(&mut self, event: TwitchEvent) -> (r: Outcome)
        requires
            old(self).sound(),
        ensures
            old(self).hears(event, *final(self), r),
            final(self).sound(),
    {
        match event {
            TwitchEvent::NeedsClientId => {
                self.sign_in = SignIn::NeedsClientId;
                Outcome::Nothing
            },
            TwitchEvent::AwaitingCode { user_code, verification_uri } => {
                self.sign_in = SignIn::AwaitingCode { user_code, verification_uri };
                Outcome::Nothing
            },
            TwitchEvent::SignedIn { login } => {
                self.sign_in = SignIn::SignedIn(login);
                let ask = self.discovery.fill_tab(true);
                Outcome::SignedIn { ask }
            },
            TwitchEvent::Streams(streams) => {
                let arrivals = self.follows.on_streams(streams, &self.panes.slots);
                Outcome::Arrived(arrivals)
            },
            TwitchEvent::FollowedChannels(channels) => {
                self.follows.on_followed_channels(channels);
                Outcome::Nothing
            },
            TwitchEvent::Avatars(images) => {
                self.follows.on_avatars(images);
                Outcome::Nothing
            },
            TwitchEvent::FollowsError(reason) => match self.follows.on_follows_error(
                reason.as_str(),
            ) {
                Some(said) => Outcome::Say(said),
                None => Outcome::Nothing,
            },
            TwitchEvent::Error(reason) => {
                self.follows.refreshing = false;
                self.sign_in = SignIn::Error(reason);
                Outcome::Nothing
            },
            TwitchEvent::Popular(page) => {
                self.discovery.on_popular(page);
                Outcome::Nothing
            },
            TwitchEvent::Categories(page) => {
                self.discovery.on_categories(page);
                Outcome::Nothing
            },
            TwitchEvent::CategoryStreams { category, streams } => {
                self.discovery.on_category_streams(&category, streams);
                Outcome::Nothing
            },
            TwitchEvent::SearchResults { query, categories, streams } => {
                self.discovery.on_search_results(query, categories, streams);
                Outcome::Nothing
            },
            TwitchEvent::Videos { login, user_id, videos } => {
                self.discovery.on_videos(login.as_str(), user_id, videos);
                Outcome::Nothing
            },
            TwitchEvent::Video { id, result } => {
                let found = notices::on_linked_video(&mut self.links, id.as_str(), result);
                Outcome::Linked(found)
            },
            TwitchEvent::BrowseError(reason) => {
                self.discovery.on_browse_error(reason);
                Outcome::Nothing
            },
        }
    }

    /// A follows refresh was asked for by hand, and whether anyone was there to
    /// take it.
    pub fn follows_requested(&mut self, taken: bool)
        ensures
            *final(self) == (Shell {
                follows: Follows { refreshing: taken, ..old(self).follows },
                ..*old(self)
            }),
            old(self).sound() ==> final(self).sound(),
    {
        self.follows.refreshing = taken;
    }
}

/// What is said where there is no room for another pane.
pub fn no_room() -> (r: &'static str)
    ensures
        r@ == "already watching 4 streams"@,
{
    "already watching 4 streams"
}

impl Shell {
    // ── The browse page ──────────────────────────────────────────────

    /// Only the panes changed.
    pub open spec fn only_panes(self, after: Shell) -> bool {
        after == (Shell { panes: after.panes, ..self })
    }

    /// A channel's stream was opened.
    pub open spec fn channel_opened(
        self,
        channel: String,
        solo: bool,
        chat_hidden: bool,
        after: Shell,
        r: Opening,
    ) -> bool {
        &&& self.only_panes(after)
        &&& exists|slot: Slot|
            slot.key == channel && slot.channel == channel && slot.live() && panes::fresh(slot)
                && slot.has_chat && slot.chat_hidden == chat_hidden && slot.resume_at == 0
                && #[trigger] self.panes.opens(slot, solo, after.panes, r)
    }

    /// A recording was opened.
    pub open spec fn video_opened(
        self,
        video: Box<Video>,
        solo: bool,
        start_at: u64,
        chat_hidden: bool,
        after: Shell,
        r: Opening,
    ) -> bool {
        &&& self.only_panes(after)
        &&& exists|slot: Slot|
            slot.key@ == watch::recording_key(video.id@) && slot.channel == video.user_login
                && slot.source == watch::Source::Video(video) && panes::fresh(slot)
                && slot.has_chat == (video.kind is Archive) && slot.chat_hidden == chat_hidden
                && slot.resume_at == start_at && #[trigger] self.panes.opens(
                slot,
                solo,
                after.panes,
                r,
            )
    }

    /// The shell after leaving the watch page, where that is the page.
    pub open spec fn back_browsing(self, with: Shell) -> bool {
        &&& self.only_panes(with)
        &&& if self.panes.page is Watch {
            &&& with.panes.page is Browse
            &&& with.panes.active == self.panes.active
            &&& with.panes.slots@ == (if self.miniplayer {
                self.panes.slots@
            } else {
                Seq::empty()
            })
        } else {
            with == self
        }
    }

    /// A channel's page was opened, from whichever page one was on.
    pub open spec fn page_opened(
        self,
        login: String,
        display_name: String,
        user_id: Option<String>,
        after: Shell,
        r: Option<Request>,
    ) -> bool {
        exists|with: Shell, turned: Discovery|
            #[trigger] self.back_browsing(with) && #[trigger] self.discovery.turned_to(
                login,
                display_name,
                user_id,
                turned,
            ) && turned.fetched(
                Request::Videos { login, user_id, after: None },
                self.sign_in is SignedIn,
                after.discovery,
                r,
            ) && after == (Shell { discovery: after.discovery, ..with })
    }

    pub fn open_channel(&mut self, channel: String, solo: bool, chat_hidden: bool) -> (r: Opening)
        requires
            old(self).sound(),
        ensures
            old(self).channel_opened(channel, solo, chat_hidden, *final(self), r),
            final(self).sound(),
    {
        self.panes.open_channel(channel, solo, chat_hidden)
    }

    pub fn open_video_at(&mut self, video: Box<Video>, solo: bool, start_at: u64, chat_hidden: bool)
        -> (r: Opening)
        requires
            old(self).sound(),
        ensures
            old(self).video_opened(video, solo, start_at, chat_hidden, *final(self), r),
            final(self).sound(),
    {
        self.panes.open_video_at(video, solo, start_at, chat_hidden)
    }

    /// Look at a channel's past broadcasts. This gets there from the watch page
    /// the way the back control does, so whatever is playing is treated as
    /// leaving the watch page always treats it.
    pub fn open_channel_page(
        &mut self,
        login: String,
        display_name: String,
        user_id: Option<String>,
    ) -> (r: Option<Request>)
        requires
            old(self).sound(),
        ensures
            old(self).page_opened(login, display_name, user_id, *final(self), r),
            final(self).sound(),
    {
        if self.panes.page == Page::Watch {
            self.panes.go_browse(self.miniplayer);
        }
        let ghost with = *self;
        assert(old(self).back_browsing(with));
        let signed_in = self.sign_in.signed_in();
        let r = self.discovery.open_channel_page(login, display_name, user_id, signed_in);
        proof {
            let turned = choose|turned: Discovery|
                #[trigger] old(self).discovery.turned_to(login, display_name, user_id, turned)
                    && turned.fetched(
                    Request::Videos { login, user_id, after: None },
                    signed_in,
                    self.discovery,
                    r,
                );
            assert(old(self).back_browsing(with) && old(self).discovery.turned_to(
                login,
                display_name,
                user_id,
                turned,
            ));
        }
        r
    }

    /// What a click on the browse page does.
    pub open spec fn acts(self, action: Action, chat_hidden: bool, after: Shell, r: Deed) -> bool {
        let signed_in = self.sign_in is SignedIn;
        match action {
            Action::Watch(channel) => r is Opened && self.channel_opened(
                channel,
                true,
                chat_hidden,
                after,
                r->Opened_0,
            ),
            Action::Add(channel) => r is Opened && self.channel_opened(
                channel,
                false,
                chat_hidden,
                after,
                r->Opened_0,
            ),
            Action::OpenCategory(category) => {
                &&& self.only_discovery(after)
                &&& r is Ask
                &&& exists|with: Discovery|
                    #[trigger] self.discovery.opened(category, with) && with.fetched(
                        Request::Category { category, after: None },
                        signed_in,
                        after.discovery,
                        r->Ask_0,
                    )
            },
            Action::CloseCategory => {
                &&& r is Nothing
                &&& self.only_discovery(after)
                &&& after.discovery == (Discovery {
                    open: None,
                    streams: after.discovery.streams,
                    error: None,
                    ..self.discovery
                })
                &&& after.discovery.no_streams()
            },
            Action::CloseSearch => {
                &&& r is Nothing
                &&& after == (Shell {
                    discovery: Discovery { search: None, error: None, ..self.discovery },
                    ..self
                })
            },
            Action::OpenSettings => {
                &&& r is Settings
                &&& after == (Shell { settings_open: !self.settings_open, ..self })
            },
            Action::LoadMore => {
                &&& r is Ask
                &&& self.only_discovery(after)
                &&& match self.discovery.next_page() {
                    Some(request) => self.discovery.fetched(
                        request,
                        signed_in,
                        after.discovery,
                        r->Ask_0,
                    ),
                    None => self.discovery.unasked(after.discovery, r->Ask_0),
                }
            },
            Action::OpenChannel { login, display_name, user_id } => r is Ask && self.page_opened(
                login,
                display_name,
                user_id,
                after,
                r->Ask_0,
            ),
            Action::CloseChannel => {
                &&& r is Nothing
                &&& after == (Shell {
                    discovery: Discovery { channel: None, error: None, ..self.discovery },
                    ..self
                })
            },
            Action::WatchVideo(video) => r is Opened && self.video_opened(
                video,
                true,
                0,
                chat_hidden,
                after,
                r->Opened_0,
            ),
            Action::AddVideo(video) => r is Opened && self.video_opened(
                video,
                false,
                0,
                chat_hidden,
                after,
                r->Opened_0,
            ),
        }
    }

    /// Something the user did on the browse page. `chat_hidden` is what is
    /// remembered of the channel that the action is about.
    pub fn on_browse_action(&mut self, action: Action, chat_hidden: bool) -> (r: Deed)
        requires
            old(self).sound(),
        ensures
            old(self).acts(action, chat_hidden, *final(self), r),
            final(self).sound(),
    {
        let signed_in = self.sign_in.signed_in();
        match action {
            Action::Watch(channel) => Deed::Opened(self.open_channel(channel, true, chat_hidden)),
            Action::Add(channel) => Deed::Opened(self.open_channel(channel, false, chat_hidden)),
            Action::OpenCategory(category) => Deed::Ask(
                self.discovery.open_category(category, signed_in),
            ),
            Action::CloseCategory => {
                self.discovery.close_category();
                Deed::Nothing
            },
            Action::CloseSearch => {
                self.discovery.close_search();
                Deed::Nothing
            },
            Action::OpenSettings => {
                self.settings_open = !self.settings_open;
                Deed::Settings
            },
            Action::LoadMore => Deed::Ask(self.discovery.load_more(signed_in)),
            Action::OpenChannel { login, display_name, user_id } => Deed::Ask(
                self.open_channel_page(login, display_name, user_id),
            ),
            Action::CloseChannel => {
                self.discovery.close_channel();
                Deed::Nothing
            },
            Action::WatchVideo(video) => Deed::Opened(
                self.open_video_at(video, true, 0, chat_hidden),
            ),
            Action::AddVideo(video) => Deed::Opened(
                self.open_video_at(video, false, 0, chat_hidden),
            ),
        }
    }

    /// One step back on the browse page: a channel's page, a search or a
    /// category closes first, since it took the page over; with none open, back
    /// to whatever is playing.
    pub fn on_back(&mut self) -> (r: Deed)
        requires
            old(self).sound(),
        ensures
            if old(self).discovery.channel is Some {
                old(self).acts(Action::CloseChannel, false, *final(self), r)
            } else if old(self).discovery.search is Some {
                old(self).acts(Action::CloseSearch, false, *final(self), r)
            } else if old(self).discovery.open is Some {
                old(self).acts(Action::CloseCategory, false, *final(self), r)
            } else {
                &&& r == Deed::Watching(old(self).panes.slots@.len() > 0)
                &&& *final(self) == (Shell {
                    panes: Panes {
                        page: if old(self).panes.slots@.len() > 0 {
                            Page::Watch
                        } else {
                            old(self).panes.page
                        },
                        ..old(self).panes
                    },
                    ..*old(self)
                })
            },
            final(self).sound(),
    {
        if self.discovery.channel.is_some() {
            self.on_browse_action(Action::CloseChannel, false)
        } else if self.discovery.search.is_some() {
            self.on_browse_action(Action::CloseSearch, false)
        } else if self.discovery.open.is_some() {
            self.on_browse_action(Action::CloseCategory, false)
        } else {
            Deed::Watching(self.panes.go_watch())
        }
    }

    // ── The palette ──────────────────────────────────────────────────

    /// Open the palette, or close it. It opens with the first row selected.
    pub fn toggle_palette(&mut self)
        ensures
            *final(self) == (Shell {
                palette_open: !old(self).palette_open,
                palette_selected: 0,
                ..*old(self)
            }),
            old(self).sound() ==> final(self).sound(),
    {
        self.palette_open = !self.palette_open;
        self.palette_selected = 0;
    }

    /// The shell with the palette closed.
    pub open spec fn unpaletted(self) -> Shell {
        if self.palette_open {
            Shell { palette_open: false, palette_selected: 0, ..self }
        } else {
            self
        }
    }

    /// What a command does. The palette closes first, whatever the command
    /// turns out to be: every one of them changes what is on screen.
    pub open spec fn runs(self, command: Command, chat_hidden: bool, after: Shell, r: Deed) -> bool {
        let me = self.unpaletted();
        match command {
            Command::Watch(channel) => r is Opened && me.channel_opened(
                channel,
                true,
                chat_hidden,
                after,
                r->Opened_0,
            ),
            Command::Add(channel) => r is Opened && me.channel_opened(
                channel,
                false,
                chat_hidden,
                after,
                r->Opened_0,
            ),
            Command::Close(index) => {
                &&& r is Closed
                &&& me.only_panes(after)
                &&& after.panes.slots@ == (if index < me.panes.slots@.len() {
                    me.panes.slots@.remove(index as int)
                } else {
                    me.panes.slots@
                })
                &&& after.panes.page == (if after.panes.slots@.len() == 0 {
                    Page::Browse
                } else {
                    me.panes.page
                })
                &&& after.panes.active == me.panes.active
            },
            Command::Videos { login, display_name, user_id } => r is Ask && me.page_opened(
                login,
                display_name,
                user_id,
                after,
                r->Ask_0,
            ),
            Command::OpenVideo { id, start_secs } => {
                &&& r is Linked
                &&& after == (Shell { links: after.links, ..me })
                &&& notices::link_opened(
                    me.links@,
                    me.sign_in,
                    id,
                    start_secs,
                    after.links@,
                    r->Linked_0,
                )
            },
            Command::GoBrowse => {
                &&& r is Browsing
                &&& me.only_panes(after)
                &&& after.panes.page is Browse
                &&& after.panes.active == me.panes.active
                &&& after.panes.slots@ == (if me.miniplayer {
                    me.panes.slots@
                } else {
                    Seq::empty()
                })
            },
            Command::GoWatch => {
                &&& r == Deed::Watching(me.panes.slots@.len() > 0)
                &&& after == (Shell {
                    panes: Panes {
                        page: if me.panes.slots@.len() > 0 {
                            Page::Watch
                        } else {
                            me.panes.page
                        },
                        ..me.panes
                    },
                    ..me
                })
            },
            Command::StopAll => {
                &&& r is Browsing
                &&& me.only_panes(after)
                &&& after.panes.page is Browse
                &&& after.panes.slots@.len() == 0
                &&& after.panes.active == me.panes.active
            },
            Command::ToggleSidebar => {
                &&& r is Sidebar
                &&& after == (Shell { sidebar_collapsed: !me.sidebar_collapsed, ..me })
            },
            Command::ToggleSettings => {
                &&& r is Settings
                &&& after == (Shell { settings_open: !me.settings_open, ..me })
            },
            Command::Refresh => {
                &&& r is Ask
                &&& me.only_discovery(after)
                &&& me.discovery.refreshed(me.sign_in is SignedIn, after.discovery, r->Ask_0)
            },
        }
    }

    pub fn run_command(&mut self, command: Command, chat_hidden: bool) -> (r: Deed)
        requires
            old(self).sound(),
        ensures
            old(self).runs(command, chat_hidden, *final(self), r),
            !final(self).palette_open,
            final(self).sound(),
    {
        if self.palette_open {
            self.toggle_palette();
        }
        let ghost me = *self;
        assert(me == old(self).unpaletted());
        match command {
            Command::Watch(channel) => Deed::Opened(self.open_channel(channel, true, chat_hidden)),
            Command::Add(channel) => Deed::Opened(self.open_channel(channel, false, chat_hidden)),
            Command::Close(index) => {
                self.panes.close_slot(index);
                Deed::Closed
            },
            Command::Videos { login, display_name, user_id } => Deed::Ask(
                self.open_channel_page(login, display_name, user_id),
            ),
            Command::OpenVideo { id, start_secs } => Deed::Linked(
                notices::open_video_link(&mut self.links, &self.sign_in, id, start_secs),
            ),
            Command::GoBrowse => {
                self.panes.go_browse(self.miniplayer);
                Deed::Browsing
            },
            Command::GoWatch => Deed::Watching(self.panes.go_watch()),
            Command::StopAll => {
                self.panes.stop_all();
                Deed::Browsing
            },
            Command::ToggleSidebar => {
                self.sidebar_collapsed = !self.sidebar_collapsed;
                Deed::Sidebar
            },
            Command::ToggleSettings => {
                self.settings_open = !self.settings_open;
                Deed::Settings
            },
            Command::Refresh => {
                let signed_in = self.sign_in.signed_in();
                Deed::Ask(self.discovery.refresh(signed_in))
            },
        }
    }

    /// What the keymap tests its predicates against.
    pub fn key_context(&self) -> (r: &'static str)
        ensures
            r@ == (if self.settings_open || self.palette_open {
                "Perch Modal"@
            } else if self.panes.page is Watch {
                "Perch Watch"@
            } else {
                "Perch Browse"@
            }),
    {
        if self.settings_open || self.palette_open {
            return keys::CONTEXT_MODAL;
        }
        match self.panes.page {
            Page::Watch => keys::CONTEXT_WATCH,
            Page::Browse => keys::CONTEXT_BROWSE,
        }
    }

    // ── The settings sheet ───────────────────────────────────────────

    /// What a save from the settings sheet changes here. A new client id starts
    /// over: everything that was fetched belonged to the old application. The
    /// miniplayer turned off while streams are already parked acts at once, and
    /// so does another quality or cookie: every pane forgets a quality picked by
    /// hand, and is to be started over.
    pub open spec fn settled(self, changes: Changes, miniplayer: bool, after: Shell) -> bool {
        let parked = self.miniplayer && !miniplayer && self.panes.page is Browse;
        &&& after == (Shell {
            settings_open: false,
            miniplayer,
            panes: after.panes,
            sign_in: if changes.client_id {
                SignIn::Connecting
            } else {
                self.sign_in
            },
            follows: after.follows,
            discovery: after.discovery,
            ..self
        })
        &&& after.panes.page == self.panes.page
        &&& after.panes.active == self.panes.active
        &&& if parked {
            after.panes.slots@.len() == 0
        } else {
            &&& after.panes.slots@.len() == self.panes.slots@.len()
            &&& forall|i: int|
                0 <= i < self.panes.slots@.len() ==> #[trigger] after.panes.slots@[i] == (
                if changes.stream {
                    Slot { quality_override: None, ..self.panes.slots@[i] }
                } else {
                    self.panes.slots@[i]
                })
        }
        &&& if changes.client_id {
            &&& after.follows.live@.len() == 0
            &&& after.follows.offline@.len() == 0
            &&& after.follows.known_live@.len() == 0
            &&& after.follows.avatars@.len() == 0
            &&& !after.follows.loaded
            &&& !after.follows.seeded
            &&& after.follows.refreshing == self.follows.refreshing
            &&& after.discovery.tab is Following
            &&& after.discovery.popular.items@.len() == 0
            &&& after.discovery.popular.next is None
            &&& after.discovery.categories.items@.len() == 0
            &&& after.discovery.categories.next is None
            &&& after.discovery.channel is None
            &&& after.discovery.search is None
            &&& after.discovery.open is None
            &&& after.discovery.no_streams()
            &&& !after.discovery.loading
            &&& after.discovery.error is None
        } else {
            after.follows == self.follows && after.discovery == self.discovery
        }
    }

    /// The settings sheet saved. Where the stream changed, every pane is then
    /// started over with [`Panes::restart_stream`].
    pub fn saved(&mut self, changes: &Changes, miniplayer: bool)
        requires
            old(self).sound(),
        ensures
            old(self).settled(*changes, miniplayer, *final(self)),
            final(self).sound(),
    {
        let parked = self.miniplayer && !miniplayer && self.panes.page == Page::Browse;
        self.settings_open = false;
        self.miniplayer = miniplayer;
        if parked {
            self.panes.slots.clear();
        }
        if changes.client_id {
            self.sign_in = SignIn::Connecting;
            let refreshing = self.follows.refreshing;
            self.follows = Follows::default();
            self.follows.refreshing = refreshing;
            self.discovery = Discovery::default();
        }
        if changes.stream {
            let ghost held = self.panes.slots@;
            let ghost before = *self;
            let mut i: usize = 0;
            while i < self.panes.slots.len()
                invariant
                    i <= self.panes.slots@.len(),
                    self.panes.slots@.len() == held.len(),
                    self.panes.sound(),
                    *self == (Shell { panes: self.panes, ..before }),
                    self.panes.page == before.panes.page,
                    self.panes.active == before.panes.active,
                    forall|k: int|
                        0 <= k < i ==> #[trigger] self.panes.slots@[k] == (Slot {
                            quality_override: None,
                            ..held[k]
                        }),
                    forall|k: int|
                        i <= k < held.len() ==> #[trigger] self.panes.slots@[k] == held[k],
                decreases self.panes.slots.len() - i,
            {
                self.panes.set_quality(i, None);
                i += 1;
            }
        }
    }

    // ── Changes that come in runs ────────────────────────────────────

    /// A preference changed, and is to be written once it has stopped changing:
    /// the number of this change.
    pub fn save_settings_soon(&mut self) -> (r: u64)
        requires
            old(self).save_epoch < u64::MAX,
        ensures
            r == old(self).save_epoch + 1,
            *final(self) == (Shell { save_epoch: r, ..*old(self) }),
            old(self).sound() ==> final(self).sound(),
    {
        self.save_epoch = self.save_epoch + 1;
        self.save_epoch
    }

    /// Whether a change is still the newest once it has settled, so that it is
    /// the one that writes.
    pub fn save_is_due(&self, epoch: u64) -> (r: bool)
        ensures
            r == (self.save_epoch == epoch),
    {
        self.save_epoch == epoch
    }

    /// The window changed its size: the number of this change.
    pub fn on_window_resized(&mut self) -> (r: u64)
        requires
            old(self).resize_epoch < u64::MAX,
        ensures
            r == old(self).resize_epoch + 1,
            *final(self) == (Shell { resize_epoch: r, ..*old(self) }),
            old(self).sound() ==> final(self).sound(),
    {
        self.resize_epoch = self.resize_epoch + 1;
        self.resize_epoch
    }

    /// Whether a resize is still the newest once it has settled.
    pub fn resize_is_due(&self, epoch: u64) -> (r: bool)
        ensures
            r == (self.resize_epoch == epoch),
    {
        self.resize_epoch == epoch
    }

    // ── A pane's player ──────────────────────────────────────────────

    /// A pane's volume was changed, and is remembered against its channel.
    /// Whether there is anything to write.
    pub fn on_volume_changed(&self, settings: &mut Settings, key: &str, volume: u8) -> (r: bool)
        requires
            old(settings).sound(),
        ensures
            final(settings).sound(),
            match panes::place_of(self.panes.slots@, key@) {
                Some(i) => {
                    let channel = self.panes.slots@[i].channel@;
                    &&& old(settings).with_level(channel, volume, *final(settings))
                    &&& r == (final(settings).volume != old(settings).volume
                        || crate::settings::recalled(
                        old(settings).channel_prefs@,
                        crate::settings::key_of(channel),
                    ) != Some(
                        crate::settings::ChannelPrefs {
                            volume: Some(crate::settings::level(volume)),
                        },
                    ))
                },
                None => *final(settings) == *old(settings) && !r,
            },
    {
        match self.panes.slot_index(key) {
            Some(i) => settings.set_volume_for(self.panes.slots[i].channel.as_str(), volume),
            None => false,
        }
    }

    /// The name of a pane in the bar of what is playing: a recording carries its
    /// channel's name with it, and a stream is called as the follows list calls
    /// it, or else by its login.
    pub open spec fn playing_name(self, slot: Slot) -> Seq<char> {
        match slot.source {
            watch::Source::Video(video) => video.user_name@,
            watch::Source::Live => match crate::helix::stream_of(
                self.follows.live@,
                slot.channel@,
            ) {
                Some(stream) => stream.display_name@,
                None => slot.channel@,
            },
        }
    }

    pub fn now_playing_name(&self, slot: &Slot) -> (r: String)
        ensures
            r@ == self.playing_name(*slot),
    {
        match &slot.source {
            watch::Source::Video(video) => video.user_name.clone(),
            watch::Source::Live => match crate::helix::find_stream(
                &self.follows.live,
                slot.channel.as_str(),
            ) {
                Some(stream) => stream.display_name.clone(),
                None => slot.channel.clone(),
            },
        }
    }

    /// Whether the bar of what is playing is shown on the browse page.
    pub fn shows_now_playing(&self) -> (r: bool)
        ensures
            r == (self.panes.slots@.len() > 0 && self.miniplayer),
    {
        self.panes.slots.len() > 0 && self.miniplayer
    }
}

// ── Laws ─────────────────────────────────────────────────────────────

/// What is open already is not opened again: asking for it leaves as many panes
/// as there were, or it alone.
pub proof fn law_nothing_is_opened_twice(
    before: Panes,
    slot: Slot,
    solo: bool,
    after: Panes,
    r: Opening,
    again: Panes,
    s: Opening,
)
    requires
        before.sound(),
        before.opens(slot, solo, after, r),
        after.opens(slot, false, again, s),
        !(r is Full),
    ensures
        s is Existing,
        again.slots@ == after.slots@,
{
    panes::law_what_was_opened_is_there(before, slot, solo, after, r);
}

/// A reply about a category, a search or a channel that the user has left
/// changes nothing but that the page waits no longer.
pub proof fn law_a_stale_reply_fills_no_page(
    before: Shell,
    event: TwitchEvent,
    after: Shell,
    r: Outcome,
)
    requires
        before.hears(event, after, r),
        match event {
            TwitchEvent::CategoryStreams { category, .. } => before.discovery.open is None
                || before.discovery.open->0.id@ != category.id@,
            TwitchEvent::SearchResults { query, .. } => before.discovery.search is None
                || before.discovery.search->0.query@ != query@,
            TwitchEvent::Videos { login, .. } => before.discovery.channel is None
                || before.discovery.channel->0.login@ != login@,
            _ => false,
        },
    ensures
        after == (Shell {
            discovery: Discovery { loading: false, ..before.discovery },
            ..before
        }),
{
}

/// A failed browse request, and a failed poll of the follows, leave the session
/// signed in and every list as it was.
pub proof fn law_a_failed_request_signs_nobody_out(
    before: Shell,
    event: TwitchEvent,
    after: Shell,
    r: Outcome,
)
    requires
        event is BrowseError || event is FollowsError,
        before.hears(event, after, r),
    ensures
        after.sign_in == before.sign_in,
        after.panes == before.panes,
        after.follows.live == before.follows.live,
        after.follows.offline == before.follows.offline,
        after.discovery.popular == before.discovery.popular,
        after.discovery.categories == before.discovery.categories,
        after.discovery.streams == before.discovery.streams,
{
}

/// With the miniplayer on, leaving the watch page and coming back finds every
/// pane as it was.
pub proof fn law_leaving_and_coming_back(before: Shell, away: Shell, back: Shell, r: Deed, s: Deed)
    requires
        before.miniplayer,
        before.panes.page is Watch,
        before.panes.slots@.len() > 0,
        !before.palette_open,
        before.runs(Command::GoBrowse, false, away, r),
        away.runs(Command::GoWatch, false, back, s),
    ensures
        back.panes.page is Watch,
        back.panes.slots@ == before.panes.slots@,
        back.panes.active == before.panes.active,
        s == Deed::Watching(true),
{
}

/// A reply for what is on screen is what is on screen: the items that came, in
/// place of what was there or behind it, and the page waits no longer.
pub proof fn law_a_reply_fills_the_page_that_asked(
    before: Shell,
    event: TwitchEvent,
    after: Shell,
    r: Outcome,
)
    requires
        before.hears(event, after, r),
    ensures
        event matches TwitchEvent::Popular(page) ==> !after.discovery.loading
            && after.discovery.popular.next == page.next && (!page.append
            ==> after.discovery.popular.items@ == page.items@) && (page.append
            ==> after.discovery.popular.items@ == before.discovery.popular.items@ + page.items@),
        event matches TwitchEvent::Categories(page) ==> !after.discovery.loading
            && after.discovery.categories.next == page.next && (!page.append
            ==> after.discovery.categories.items@ == page.items@) && (page.append
            ==> after.discovery.categories.items@ == before.discovery.categories.items@
            + page.items@),
        event matches TwitchEvent::CategoryStreams { category, streams } ==> (before.discovery.open
            is Some && before.discovery.open->0.id@ == category.id@ && !streams.append
            ==> after.discovery.streams.items@ == streams.items@ && after.discovery.streams.next
            == streams.next && !after.discovery.loading),
        event matches TwitchEvent::SearchResults { query, categories, streams } ==> (
        before.discovery.search is Some && before.discovery.search->0.query@ == query@
            ==> after.discovery.search is Some && after.discovery.search->0.categories == categories
            && after.discovery.search->0.streams == streams && !after.discovery.loading),
        event matches TwitchEvent::Videos { login, user_id, videos } ==> (before.discovery.channel
            is Some && before.discovery.channel->0.login@ == login@ && !videos.append
            ==> after.discovery.channel is Some && after.discovery.channel->0.videos.items@
            == videos.items@ && after.discovery.channel->0.user_id == Some(user_id)
            && after.discovery.channel->0.login == before.discovery.channel->0.login
            && !after.discovery.loading),
        event matches TwitchEvent::BrowseError(reason) ==> after.discovery.error == Some(reason)
            && !after.discovery.loading,
{
}

/// How far sign-in has got is what the worker said last of it, and nothing the
/// worker says touches the panes.
pub proof fn law_the_worker_says_how_far_sign_in_is(
    before: Shell,
    event: TwitchEvent,
    after: Shell,
    r: Outcome,
)
    requires
        before.hears(event, after, r),
    ensures
        event is NeedsClientId ==> after.sign_in is NeedsClientId,
        event matches TwitchEvent::AwaitingCode { user_code, verification_uri } ==> after.sign_in
            == (SignIn::AwaitingCode { user_code, verification_uri }),
        event matches TwitchEvent::SignedIn { login } ==> after.sign_in == SignIn::SignedIn(login)
            && r is SignedIn,
        event matches TwitchEvent::Error(reason) ==> after.sign_in == SignIn::Error(reason)
            && !after.follows.refreshing,
        !(event is NeedsClientId || event is AwaitingCode || event is SignedIn || event is Error)
            ==> after.sign_in == before.sign_in,
        after.panes == before.panes,
        after.settings_open == before.settings_open,
        after.palette_open == before.palette_open,
        event matches TwitchEvent::Streams(streams) ==> after.follows.live == streams,
        event matches TwitchEvent::FollowsError(reason) ==> (r is Say <==> before.follows.refreshing)
            && !after.follows.refreshing,
        event matches TwitchEvent::FollowedChannels(channels) ==> !after.follows.refreshing
            && after.follows.loaded && forall|i: int| #![trigger after.follows.offline@[i]]
            0 <= i < after.follows.offline@.len() ==> !text::texts(
                before.follows.known_live@,
            ).contains(after.follows.offline@[i].login@),
{
    if let TwitchEvent::FollowedChannels(channels) = event {
        crate::follows::lemma_absent(channels@, text::texts(before.follows.known_live@));
    }
}

/// Watching a channel leaves it alone on the watch page; adding one leaves what
/// plays where it is; and a recording opened from a list starts at its
/// beginning.
pub proof fn law_watching_is_alone_and_adding_is_beside(
    before: Shell,
    channel: String,
    video: Box<Video>,
    chat_hidden: bool,
    after: Shell,
    r: Deed,
)
    ensures
        before.acts(Action::Watch(channel), chat_hidden, after, r) ==> after.panes.slots@.len() == 1
            && after.panes.slots@[0].key@ == channel@ && after.panes.page is Watch,
        before.acts(Action::Add(channel), chat_hidden, after, r) ==> after.panes.page is Watch
            && after.panes.slots@.len() >= before.panes.slots@.len() && (forall|i: int|
            0 <= i < before.panes.slots@.len() ==> #[trigger] after.panes.slots@[i]
                == before.panes.slots@[i]) && (r == Deed::Opened(Opening::New)
            ==> after.panes.slots@.len() == before.panes.slots@.len() + 1
            && after.panes.slots@.last().key == channel && after.panes.slots@.last().source is Live
            && after.panes.slots@.last().chat_hidden == chat_hidden),
        before.acts(Action::WatchVideo(video), chat_hidden, after, r) ==> after.panes.slots@.len()
            == 1 && (r == Deed::Opened(Opening::New) ==> after.panes.slots@[0].source
            == watch::Source::Video(video) && after.panes.slots@[0].resume_at == 0),
        before.acts(Action::AddVideo(video), chat_hidden, after, r) ==> (forall|i: int|
            0 <= i < before.panes.slots@.len() ==> #[trigger] after.panes.slots@[i]
                == before.panes.slots@[i]) && (r == Deed::Opened(Opening::New)
            ==> after.panes.slots@.last().source == watch::Source::Video(video)
            && after.panes.slots@.last().resume_at == 0),
        before.acts(Action::Watch(channel), chat_hidden, after, r) || before.acts(
            Action::Add(channel),
            chat_hidden,
            after,
            r,
        ) ==> after.discovery == before.discovery && after.follows == before.follows
            && after.sign_in == before.sign_in,
{
    panes::lemma_places(before.panes.slots@);
}

/// A recording that is opened at a moment is to start there, beside the others
/// or alone.
pub proof fn law_a_recording_is_opened_at_its_moment(
    before: Shell,
    video: Box<Video>,
    solo: bool,
    start_at: u64,
    chat_hidden: bool,
    after: Shell,
)
    requires
        before.video_opened(video, solo, start_at, chat_hidden, after, Opening::New),
    ensures
        after.panes.slots@.len() > 0,
        after.panes.slots@.last().resume_at == start_at,
        after.panes.slots@.last().source == watch::Source::Video(video),
        after.panes.slots@.last().key@ == watch::recording_key(video.id@),
        after.panes.slots@.last().state is Starting,
        solo ==> after.panes.slots@.len() == 1,
{
}

/// Looking at a channel's recordings goes to the browse page, where they are
/// asked for from the beginning; what plays is parked, or stopped where nothing
/// is to be parked.
pub proof fn law_recordings_are_looked_at_while_browsing(
    before: Shell,
    login: String,
    display_name: String,
    user_id: Option<String>,
    after: Shell,
    r: Option<Request>,
)
    requires
        before.page_opened(login, display_name, user_id, after, r),
    ensures
        after.panes.page is Browse || before.panes.page is Browse,
        before.panes.page is Watch && !before.miniplayer ==> after.panes.slots@.len() == 0,
        before.panes.page is Browse || before.miniplayer ==> after.panes.slots@
            == before.panes.slots@,
        after.discovery.channel is Some && after.discovery.channel->0.login == login
            && after.discovery.channel->0.display_name == display_name,
        before.sign_in is SignedIn ==> r == Some(
            Request::Videos { login, user_id, after: None },
        ),
        !(before.sign_in is SignedIn) ==> r is None,
{
}

/// What each of the palette's commands does, and that it closes the palette.
pub proof fn law_a_command_does_what_it_says(
    before: Shell,
    command: Command,
    chat_hidden: bool,
    after: Shell,
    r: Deed,
)
    requires
        before.runs(command, chat_hidden, after, r),
    ensures
        !after.palette_open,
        command is GoBrowse ==> after.panes.page is Browse && (before.miniplayer
            ==> after.panes.slots@ == before.panes.slots@) && (!before.miniplayer
            ==> after.panes.slots@.len() == 0),
        command is GoWatch && before.panes.slots@.len() > 0 ==> after.panes.page is Watch
            && after.panes.slots@ == before.panes.slots@,
        command is StopAll ==> after.panes.slots@.len() == 0 && after.panes.page is Browse,
        command is ToggleSidebar ==> after.sidebar_collapsed == !before.sidebar_collapsed
            && after.panes == before.panes,
        command is ToggleSettings ==> after.settings_open == !before.settings_open && after.panes
            == before.panes,
        command matches Command::Close(index) ==> (index < before.panes.slots@.len()
            ==> after.panes.slots@.len() == before.panes.slots@.len() - 1 && forall|i: int|
            0 <= i < after.panes.slots@.len() ==> #[trigger] after.panes.slots@[i]
                == before.panes.slots@[if i < index {
                i
            } else {
                i + 1
            }]) && (index >= before.panes.slots@.len() ==> after.panes.slots@
            == before.panes.slots@) && (after.panes.slots@.len() == 0 ==> after.panes.page
            is Browse),
        command matches Command::Watch(channel) ==> after.panes.slots@.len() == 1
            && after.panes.slots@[0].key@ == channel@,
        command matches Command::Add(channel) ==> forall|i: int|
            0 <= i < before.panes.slots@.len() ==> #[trigger] after.panes.slots@[i]
                == before.panes.slots@[i],
        command matches Command::OpenVideo { id, start_secs } ==> after.panes == before.panes
            && r is Linked,
        command is Refresh && before.sign_in is SignedIn && before.discovery.tab is Popular
            && before.discovery.channel is None && before.discovery.search is None
            && before.discovery.open is None ==> r == Deed::Ask(
            Some(Request::Popular { after: None }),
        ),
{
    panes::lemma_places(before.panes.slots@);
}

/// A new application starts over: what was fetched with the old one is gone and
/// a new sign-in begins. Another quality forgets those picked by hand. Anything
/// else keeps what is there; and streams that were parked stop where they are
/// no longer to be.
pub proof fn law_saved_settings_act_at_once(
    before: Shell,
    changes: Changes,
    miniplayer: bool,
    after: Shell,
)
    requires
        before.settled(changes, miniplayer, after),
    ensures
        !after.settings_open,
        after.miniplayer == miniplayer,
        changes.client_id ==> after.sign_in is Connecting && after.follows.live@.len() == 0
            && after.follows.offline@.len() == 0 && after.discovery.popular.items@.len() == 0
            && after.discovery.channel is None && after.discovery.search is None
            && after.discovery.open is None && !after.follows.seeded,
        !changes.client_id ==> after.sign_in == before.sign_in && after.follows == before.follows
            && after.discovery == before.discovery,
        before.miniplayer && !miniplayer && before.panes.page is Browse
            ==> after.panes.slots@.len() == 0,
        !(before.miniplayer && !miniplayer && before.panes.page is Browse)
            ==> after.panes.slots@.len() == before.panes.slots@.len() && forall|i: int|
            0 <= i < before.panes.slots@.len() ==> {
                let slot = #[trigger] after.panes.slots@[i];
                &&& slot.key == before.panes.slots@[i].key
                &&& slot.source == before.panes.slots@[i].source
                &&& changes.stream ==> slot.quality_override is None
                &&& !changes.stream ==> slot == before.panes.slots@[i]
            },
{
}

/// A pane in the bar of what is playing goes by the name it is known by.
pub proof fn law_what_plays_goes_by_its_name(shell: Shell, slot: Slot)
    ensures
        slot.source matches watch::Source::Video(video) ==> shell.playing_name(slot)
            == video.user_name@,
        slot.source is Live && (forall|i: int|
            0 <= i < shell.follows.live@.len() ==> (#[trigger] shell.follows.live@[i]).user_login@
                != slot.channel@) ==> shell.playing_name(slot) == slot.channel@,
        slot.source is Live && shell.follows.live@.len() > 0
            && shell.follows.live@[0].user_login@ == slot.channel@ ==> shell.playing_name(slot)
            == shell.follows.live@[0].display_name@,
{
    crate::helix::lemma_stream_of(shell.follows.live@, slot.channel@);
}

/// Closing what has taken the page over closes that alone and takes away what
/// went wrong there; the settings open and close by turns; nothing else moves.
pub proof fn law_closing_closes_one_thing(
    before: Shell,
    action: Action,
    chat_hidden: bool,
    after: Shell,
    r: Deed,
)
    requires
        before.acts(action, chat_hidden, after, r),
    ensures
        action is CloseCategory ==> after.discovery.open is None && after.discovery.error is None
            && after.discovery.streams.items@.len() == 0 && after.discovery.search
            == before.discovery.search && after.discovery.channel == before.discovery.channel
            && after.discovery.popular == before.discovery.popular && after.discovery.categories
            == before.discovery.categories,
        action is CloseSearch ==> after.discovery.search is None && after.discovery.error is None
            && after.discovery.open == before.discovery.open && after.discovery.channel
            == before.discovery.channel && after.discovery.streams == before.discovery.streams,
        action is CloseChannel ==> after.discovery.channel is None && after.discovery.error is None
            && after.discovery.open == before.discovery.open && after.discovery.search
            == before.discovery.search,
        action is CloseCategory || action is CloseSearch || action is CloseChannel ==> r is Nothing
            && after.panes == before.panes && after.settings_open == before.settings_open,
        action is OpenSettings ==> after.settings_open != before.settings_open && after.panes
            == before.panes && after.discovery == before.discovery,
        !(action is OpenSettings) && !(action is Watch) && !(action is Add)
            && !(action is WatchVideo) && !(action is AddVideo) && !(action is OpenChannel)
            ==> after.settings_open == before.settings_open && after.panes == before.panes,
{
}

/// A category that is opened is asked for from its first page, and is the one
/// on the page; while nobody is signed in nothing is asked for. More is asked
/// for where the page says that there is more.
pub proof fn law_a_category_is_asked_for_from_the_start(
    before: Shell,
    category: Category,
    chat_hidden: bool,
    after: Shell,
    r: Deed,
)
    requires
        before.acts(Action::OpenCategory(category), chat_hidden, after, r),
    ensures
        after.discovery.open == Some(category),
        after.discovery.streams.items@.len() == 0,
        before.sign_in is SignedIn ==> r->Ask_0 == Some(
            Request::Category { category, after: None },
        ),
        !(before.sign_in is SignedIn) ==> r->Ask_0 is None,
{
}

/// A channel that is opened starts as its live stream, from now, with its chat
/// beside it, hidden where chats are.
pub proof fn law_a_channel_opens_with_its_chat(
    before: Shell,
    channel: String,
    solo: bool,
    chat_hidden: bool,
    after: Shell,
)
    requires
        before.channel_opened(channel, solo, chat_hidden, after, Opening::New),
    ensures
        after.panes.slots@.len() > 0,
        ({
            let slot = after.panes.slots@.last();
            &&& slot.key@ == channel@
            &&& slot.channel@ == channel@
            &&& slot.source is Live
            &&& slot.state is Starting
            &&& slot.has_chat
            &&& slot.chat_hidden == chat_hidden
            &&& slot.resume_at == 0
        }),
{
}

} // verus!
