//! The browse page's side of the conversation with the Twitch worker: which
//! list is showing, what to ask for, and what an answer changes.
//!
//! What is to be asked comes out as a [`Request`], which the application hands
//! to the worker; whether anyone was there to take it goes back in through
//! [`Discovery::requested`].

use crate::browse::{ChannelPage, Discovery, Listing, SearchResults, Tab};
use crate::helix;
use crate::helix::{Category, LiveStream, Video};
use crate::text;
use crate::twitch;
use crate::twitch::Request;
use vstd::prelude::*;
use vstd::string::*;

verus! {

impl Discovery {
    /// At most one of a channel's page, a search and a category has taken the
    /// page over.
    pub open spec fn one_at_most(self) -> bool {
        &&& self.channel is Some ==> self.search is None && self.open is None
        &&& self.search is Some ==> self.open is None
    }

    /// This discovery, once a request has been made ready: there is nobody to
    /// answer it before sign-in, and the page says so.
    pub open spec fn fetched(
        self,
        request: Request,
        signed_in: bool,
        after: Discovery,
        r: Option<Request>,
    ) -> bool {
        &&& after == (Discovery { error: after.error, loading: false, ..self })
        &&& if signed_in {
            after.error is None && r == Some(request)
        } else {
            after.error is Some && after.error->0@ == "Sign in to Twitch to browse."@ && r is None
        }
    }

    /// Nothing is to be asked.
    pub open spec fn unasked(self, after: Discovery, r: Option<Request>) -> bool {
        after == self && r is None
    }

    /// Make a request ready. Only a signed-in session is asked anything: before
    /// sign-in a request would wait behind it, and the page would claim to be
    /// loading until somebody noticed.
    pub fn fetch(&mut self, request: Request, signed_in: bool) -> (r: Option<Request>)
        ensures
            old(self).fetched(request, signed_in, *final(self), r),
    {
        self.error = None;
        self.loading = false;
        if signed_in {
            Some(request)
        } else {
            self.error = Some("Sign in to Twitch to browse.".to_owned());
            None
        }
    }

    /// The request was handed over, or there was nobody to take it.
    pub fn requested(&mut self, taken: bool)
        ensures
            *final(self) == (Discovery {
                loading: final(self).loading,
                error: final(self).error,
                ..*old(self)
            }),
            taken ==> final(self).loading && final(self).error == old(self).error,
            !taken ==> final(self).loading == old(self).loading && final(self).error is Some
                && final(self).error->0@ == "Not connected to Twitch."@,
    {
        if taken {
            self.loading = true;
        } else {
            self.error = Some("Not connected to Twitch.".to_owned());
        }
    }

    /// What a tab needs and does not already have.
    pub open spec fn filled(self, signed_in: bool, after: Discovery, r: Option<Request>) -> bool {
        if self.tab is Popular && self.popular.items@.len() == 0 {
            self.fetched(Request::Popular { after: None }, signed_in, after, r)
        } else if self.tab is Categories && self.categories.items@.len() == 0 {
            self.fetched(Request::Categories { after: None }, signed_in, after, r)
        } else {
            self.unasked(after, r)
        }
    }

    /// Fetch whatever the open tab needs and does not already have.
    pub fn fill_tab(&mut self, signed_in: bool) -> (r: Option<Request>)
        ensures
            old(self).filled(signed_in, *final(self), r),
    {
        match self.tab {
            Tab::Popular => if self.popular.is_empty() {
                self.fetch(Request::Popular { after: None }, signed_in)
            } else {
                None
            },
            Tab::Categories => if self.categories.is_empty() {
                self.fetch(Request::Categories { after: None }, signed_in)
            } else {
                None
            },
            Tab::Following => None,
        }
    }

    /// This discovery on another tab, with nothing over it.
    pub open spec fn on_tab(self, tab: Tab) -> Discovery {
        Discovery { tab, open: None, search: None, channel: None, error: None, ..self }
    }

    pub fn show_tab(&mut self, tab: Tab, signed_in: bool) -> (r: Option<Request>)
        ensures
            old(self).on_tab(tab).filled(signed_in, *final(self), r),
            final(self).one_at_most(),
    {
        self.tab = tab;
        self.open = None;
        self.search = None;
        self.channel = None;
        self.error = None;
        self.fill_tab(signed_in)
    }

    // ── Searching ────────────────────────────────────────────────────

    /// A search has been opened for `query`, with no results yet.
    pub open spec fn seeded(self, query: String, with: Discovery) -> bool {
        &&& with == (Discovery { open: None, channel: None, search: with.search, ..self })
        &&& with.search is Some
        &&& with.search->0.query == query
        &&& with.search->0.categories@.len() == 0
        &&& with.search->0.streams@.len() == 0
    }

    /// What a search does: an empty one clears the results, and any other takes
    /// the page over before the answer comes, so that the page can say what it
    /// is waiting for and can tell a stale reply when it lands.
    pub open spec fn searched(
        self,
        query: String,
        signed_in: bool,
        after: Discovery,
        r: Option<Request>,
    ) -> bool {
        if query@.len() == 0 {
            after == (Discovery { search: None, error: None, ..self }) && r is None
        } else {
            exists|with: Discovery|
                #[trigger] self.seeded(query, with) && with.fetched(
                    Request::Search(query),
                    signed_in,
                    after,
                    r,
                )
        }
    }

    /// Run a search, or clear the results if there is nothing to search for.
    pub fn run_search(&mut self, query: String, signed_in: bool) -> (r: Option<Request>)
        ensures
            old(self).searched(query, signed_in, *final(self), r),
            query@.len() > 0 || old(self).one_at_most() ==> final(self).one_at_most(),
    {
        if query.as_str().is_empty() {
            self.search = None;
            self.error = None;
            return None;
        }
        self.open = None;
        self.channel = None;
        self.search = Some(
            SearchResults { query: query.clone(), categories: Vec::new(), streams: Vec::new() },
        );
        let ghost with = *self;
        assert(old(self).seeded(query, with));
        self.fetch(Request::Search(query), signed_in)
    }

    // ── Refreshing ───────────────────────────────────────────────────

    /// What asking again for what is on screen comes to. Refreshing starts a
    /// list again rather than continuing it: the point is to see what is on
    /// now.
    pub open spec fn refreshed(self, signed_in: bool, after: Discovery, r: Option<Request>) -> bool {
        if let Some(page) = self.channel {
            self.fetched(
                Request::Videos { login: page.login, user_id: page.user_id, after: None },
                signed_in,
                after,
                r,
            )
        } else if let Some(results) = self.search {
            self.searched(results.query, signed_in, after, r)
        } else if let Some(category) = self.open {
            self.fetched(Request::Category { category, after: None }, signed_in, after, r)
        } else {
            match self.tab {
                Tab::Following => if signed_in {
                    after == self && r == Some(Request::Follows)
                } else {
                    self.unasked(after, r)
                },
                Tab::Popular => self.fetched(
                    Request::Popular { after: None },
                    signed_in,
                    after,
                    r,
                ),
                Tab::Categories => self.fetched(
                    Request::Categories { after: None },
                    signed_in,
                    after,
                    r,
                ),
            }
        }
    }

    /// Ask again for whatever is on screen. A request for the follows is not a
    /// browse request, and leaves the page's own loading and error alone.
    pub fn refresh(&mut self, signed_in: bool) -> (r: Option<Request>)
        ensures
            old(self).refreshed(signed_in, *final(self), r),
            old(self).one_at_most() ==> final(self).one_at_most(),
    {
        if let Some(page) = &self.channel {
            let request = Request::Videos {
                login: page.login.clone(),
                user_id: helix::copy_option(&page.user_id),
                after: None,
            };
            return self.fetch(request, signed_in);
        }
        if let Some(results) = &self.search {
            let query = results.query.clone();
            return self.run_search(query, signed_in);
        }
        if let Some(category) = &self.open {
            let request = Request::Category {
                category: helix::copy_category(category),
                after: None,
            };
            return self.fetch(request, signed_in);
        }
        match self.tab {
            Tab::Following => if signed_in {
                Some(Request::Follows)
            } else {
                None
            },
            Tab::Popular => self.fetch(Request::Popular { after: None }, signed_in),
            Tab::Categories => self.fetch(Request::Categories { after: None }, signed_in),
        }
    }

    // ── What takes the page over ─────────────────────────────────────

    /// The streams of no category.
    pub open spec fn no_streams(self) -> bool {
        self.streams.items@.len() == 0 && self.streams.next is None
    }

    /// A category has been opened, with no streams yet.
    pub open spec fn opened(self, category: Category, with: Discovery) -> bool {
        &&& with == (Discovery {
            search: None,
            channel: None,
            streams: with.streams,
            open: Some(category),
            ..self
        })
        &&& with.no_streams()
    }

    /// Look inside a category.
    pub fn open_category(&mut self, category: Category, signed_in: bool) -> (r: Option<Request>)
        ensures
            exists|with: Discovery|
                #[trigger] old(self).opened(category, with) && with.fetched(
                    Request::Category { category, after: None },
                    signed_in,
                    *final(self),
                    r,
                ),
            final(self).one_at_most(),
    {
        self.search = None;
        self.channel = None;
        self.streams.clear();
        self.open = Some(helix::copy_category(&category));
        let ghost with = *self;
        assert(old(self).opened(category, with));
        self.fetch(Request::Category { category, after: None }, signed_in)
    }

    pub fn close_category(&mut self)
        ensures
            *final(self) == (Discovery {
                open: None,
                streams: final(self).streams,
                error: None,
                ..*old(self)
            }),
            final(self).no_streams(),
            old(self).one_at_most() ==> final(self).one_at_most(),
    {
        self.open = None;
        self.streams.clear();
        self.error = None;
    }

    pub fn close_search(&mut self)
        ensures
            *final(self) == (Discovery { search: None, error: None, ..*old(self) }),
            old(self).one_at_most() ==> final(self).one_at_most(),
    {
        self.search = None;
        self.error = None;
    }

    /// A channel's page has been opened, with no recordings yet.
    pub open spec fn turned_to(
        self,
        login: String,
        display_name: String,
        user_id: Option<String>,
        with: Discovery,
    ) -> bool {
        &&& with == (Discovery {
            search: None,
            open: None,
            streams: with.streams,
            channel: with.channel,
            ..self
        })
        &&& with.no_streams()
        &&& with.channel is Some
        &&& with.channel->0.login == login
        &&& with.channel->0.display_name == display_name
        &&& with.channel->0.user_id == user_id
        &&& with.channel->0.videos.items@.len() == 0
        &&& with.channel->0.videos.next is None
    }

    /// Look at a channel's past broadcasts.
    pub fn open_channel_page(
        &mut self,
        login: String,
        display_name: String,
        user_id: Option<String>,
        signed_in: bool,
    ) -> (r: Option<Request>)
        ensures
            exists|with: Discovery|
                #[trigger] old(self).turned_to(login, display_name, user_id, with) && with.fetched(
                    Request::Videos { login, user_id, after: None },
                    signed_in,
                    *final(self),
                    r,
                ),
            final(self).one_at_most(),
    {
        self.search = None;
        self.open = None;
        self.streams.clear();
        self.channel = Some(
            ChannelPage {
                login: login.clone(),
                display_name,
                user_id: helix::copy_option(&user_id),
                videos: Listing { items: Vec::new(), next: None },
            },
        );
        let ghost with = *self;
        assert(old(self).turned_to(login, display_name, user_id, with));
        self.fetch(Request::Videos { login, user_id, after: None }, signed_in)
    }

    pub fn close_channel(&mut self)
        ensures
            *final(self) == (Discovery { channel: None, error: None, ..*old(self) }),
            old(self).one_at_most() ==> final(self).one_at_most(),
    {
        self.channel = None;
        self.error = None;
    }

    // ── Loading more ─────────────────────────────────────────────────

    /// The request for the next page of the list on screen: there is none for
    /// search results, nor for the follows, nor behind the end of a list.
    pub open spec fn next_page(self) -> Option<Request> {
        if self.search is Some {
            None
        } else if let Some(page) = self.channel {
            match page.videos.next {
                Some(after) => Some(
                    Request::Videos {
                        login: page.login,
                        user_id: page.user_id,
                        after: Some(after),
                    },
                ),
                None => None,
            }
        } else if let Some(category) = self.open {
            match self.streams.next {
                Some(after) => Some(Request::Category { category, after: Some(after) }),
                None => None,
            }
        } else {
            match self.tab {
                Tab::Popular => match self.popular.next {
                    Some(after) => Some(Request::Popular { after: Some(after) }),
                    None => None,
                },
                Tab::Categories => match self.categories.next {
                    Some(after) => Some(Request::Categories { after: Some(after) }),
                    None => None,
                },
                Tab::Following => None,
            }
        }
    }

    fn page_behind(&self) -> (r: Option<Request>)
        ensures
            r == self.next_page(),
    {
        if self.search.is_some() {
            None
        } else if let Some(page) = &self.channel {
            match &page.videos.next {
                Some(after) => Some(
                    Request::Videos {
                        login: page.login.clone(),
                        user_id: helix::copy_option(&page.user_id),
                        after: Some(after.clone()),
                    },
                ),
                None => None,
            }
        } else if let Some(category) = &self.open {
            match &self.streams.next {
                Some(after) => Some(
                    Request::Category {
                        category: helix::copy_category(category),
                        after: Some(after.clone()),
                    },
                ),
                None => None,
            }
        } else {
            match self.tab {
                Tab::Popular => match &self.popular.next {
                    Some(after) => Some(Request::Popular { after: Some(after.clone()) }),
                    None => None,
                },
                Tab::Categories => match &self.categories.next {
                    Some(after) => Some(Request::Categories { after: Some(after.clone()) }),
                    None => None,
                },
                Tab::Following => None,
            }
        }
    }

    /// Ask for the next page of whichever list is on screen. The cursor comes
    /// from the list itself, so a stale button cannot ask for a page that has
    /// already come.
    pub fn load_more(&mut self, signed_in: bool) -> (r: Option<Request>)
        ensures
            match old(self).next_page() {
                Some(request) => old(self).fetched(request, signed_in, *final(self), r),
                None => old(self).unasked(*final(self), r),
            },
            old(self).one_at_most() ==> final(self).one_at_most(),
    {
        match self.page_behind() {
            Some(request) => self.fetch(request, signed_in),
            None => None,
        }
    }

    // ── Answers ──────────────────────────────────────────────────────

    /// A page of popular streams has come.
    pub fn on_popular(&mut self, page: twitch::Listing<LiveStream>)
        ensures
            *final(self) == (Discovery {
                popular: final(self).popular,
                loading: false,
                ..*old(self)
            }),
            taken_in(old(self).popular, page, final(self).popular),
    {
        self.popular.absorb(page.items, page.next, page.append);
        self.loading = false;
    }

    /// A page of categories has come.
    pub fn on_categories(&mut self, page: twitch::Listing<Category>)
        ensures
            *final(self) == (Discovery {
                categories: final(self).categories,
                loading: false,
                ..*old(self)
            }),
            taken_in(old(self).categories, page, final(self).categories),
    {
        self.categories.absorb(page.items, page.next, page.append);
        self.loading = false;
    }

    /// A page of a category's streams has come. One for a category that the
    /// user has left does not fill the page behind them.
    pub fn on_category_streams(&mut self, category: &Category, page: twitch::Listing<LiveStream>)
        ensures
            *final(self) == (Discovery {
                streams: final(self).streams,
                loading: false,
                ..*old(self)
            }),
            if old(self).open is Some && old(self).open->0.id@ == category.id@ {
                taken_in(old(self).streams, page, final(self).streams)
            } else {
                final(self).streams == old(self).streams
            },
    {
        let still_open = match &self.open {
            Some(open) => text::same(open.id.as_str(), category.id.as_str()),
            None => false,
        };
        if still_open {
            self.streams.absorb(page.items, page.next, page.append);
        }
        self.loading = false;
    }

    /// What a search found has come. An answer to a question that the user has
    /// moved on from does not replace what they are reading now.
    pub fn on_search_results(
        &mut self,
        query: String,
        categories: Vec<Category>,
        streams: Vec<LiveStream>,
    )
        ensures
            *final(self) == (Discovery {
                search: if old(self).search is Some && old(self).search->0.query@ == query@ {
                    Some(SearchResults { query, categories, streams })
                } else {
                    old(self).search
                },
                loading: false,
                ..*old(self)
            }),
            old(self).one_at_most() ==> final(self).one_at_most(),
    {
        let current = match &self.search {
            Some(open) => text::same(open.query.as_str(), query.as_str()),
            None => false,
        };
        if current {
            self.search = Some(SearchResults { query, categories, streams });
        }
        self.loading = false;
    }

    /// A page of a channel's recordings has come. One for a channel that the
    /// user has left does not fill the page behind them.
    pub fn on_videos(&mut self, login: &str, user_id: String, page: twitch::Listing<Video>)
        ensures
            *final(self) == (Discovery {
                channel: final(self).channel,
                loading: false,
                ..*old(self)
            }),
            if old(self).channel is Some && old(self).channel->0.login@ == login@ {
                &&& final(self).channel is Some
                &&& final(self).channel->0 == (ChannelPage {
                    user_id: Some(user_id),
                    videos: final(self).channel->0.videos,
                    ..old(self).channel->0
                })
                &&& taken_in(old(self).channel->0.videos, page, final(self).channel->0.videos)
            } else {
                final(self).channel == old(self).channel
            },
            old(self).one_at_most() ==> final(self).one_at_most(),
    {
        self.loading = false;
        let mut held: Option<ChannelPage> = None;
        std::mem::swap(&mut held, &mut self.channel);
        match held {
            Some(mut open) => {
                if text::same(open.login.as_str(), login) {
                    open.user_id = Some(user_id);
                    open.videos.absorb(page.items, page.next, page.append);
                }
                self.channel = Some(open);
            },
            None => {},
        }
    }

    /// A browse request failed.
    pub fn on_browse_error(&mut self, reason: String)
        ensures
            *final(self) == (Discovery { error: Some(reason), loading: false, ..*old(self) }),
    {
        self.error = Some(reason);
        self.loading = false;
    }

    // ── What is known about a channel ────────────────────────────────

    /// Every live list there is, those kept fresh by a poll first.
    pub open spec fn live_lists(self, follows: Seq<LiveStream>) -> Seq<LiveStream> {
        follows + self.popular.items@ + self.streams.items@ + (match self.search {
            Some(results) => results.streams@,
            None => Seq::empty(),
        })
    }

    /// Everything currently known about a channel that is being watched: what
    /// the first of the live lists that has it says.
    pub fn stream_info<'a>(&'a self, follows: &'a Vec<LiveStream>, channel: &str) -> (r: Option<
        &'a LiveStream,
    >)
        ensures
            match r {
                Some(stream) => helix::stream_of(self.live_lists(follows@), channel@) == Some(
                    *stream,
                ),
                None => helix::stream_of(self.live_lists(follows@), channel@) is None,
            },
    {
        proof {
            let a = follows@;
            let b = self.popular.items@;
            let c = self.streams.items@;
            let d = match &self.search {
                Some(results) => results.streams@,
                None => Seq::empty(),
            };
            helix::lemma_stream_of_both(a + b + c, d, channel@);
            helix::lemma_stream_of_both(a + b, c, channel@);
            helix::lemma_stream_of_both(a, b, channel@);
        }
        let found = helix::find_stream(follows, channel);
        if found.is_some() {
            return found;
        }
        let found = helix::find_stream(&self.popular.items, channel);
        if found.is_some() {
            return found;
        }
        let found = helix::find_stream(&self.streams.items, channel);
        if found.is_some() {
            return found;
        }
        match &self.search {
            Some(results) => helix::find_stream(&results.streams, channel),
            None => None,
        }
    }
}

/// A page was taken into a list: it continues the list, or it is the list.
pub open spec fn taken_in<T>(
    before: Listing<T>,
    page: twitch::Listing<T>,
    after: Listing<T>,
) -> bool {
    &&& after.items@ == (if page.append {
        before.items@ + page.items@
    } else {
        page.items@
    })
    &&& after.next == page.next
}

/// A list that has been walked to its end offers no next page, and one that
/// has not is continued exactly where it stopped.
pub proof fn law_a_list_continues_where_it_stopped(
    before: Discovery,
    page: twitch::Listing<LiveStream>,
    after: Discovery,
)
    requires
        before.tab is Popular,
        before.search is None && before.channel is None && before.open is None,
        after == (Discovery { popular: after.popular, loading: false, ..before }),
        taken_in(before.popular, page, after.popular),
    ensures
        page.next is None ==> after.next_page() is None,
        page.next is Some ==> after.next_page() == Some(Request::Popular { after: page.next }),
{
}

/// Nobody is asked anything before sign-in, and no page claims to be loading
/// then.
pub proof fn law_nothing_loads_before_sign_in(
    before: Discovery,
    request: Request,
    after: Discovery,
    r: Option<Request>,
)
    requires
        before.fetched(request, false, after, r),
    ensures
        r is None,
        !after.loading,
        after.error is Some,
{
}

/// A list is made up of its pages in the order they came, and starting it again
/// leaves nothing of it; its cursor is that of the last page.
pub proof fn law_a_list_is_its_pages<T>(
    before: Listing<T>,
    first: twitch::Listing<T>,
    between: Listing<T>,
    second: twitch::Listing<T>,
    after: Listing<T>,
)
    requires
        taken_in(before, first, between),
        taken_in(between, second, after),
    ensures
        !first.append ==> between.items@ == first.items@,
        !first.append && second.append ==> after.items@ == first.items@ + second.items@,
        first.append ==> between.items@.len() == before.items@.len() + first.items@.len(),
        !second.append ==> after.items@ == second.items@,
        after.next == second.next,
{
}

/// The next page of a list is asked for with the cursor the list has, for what
/// is on screen; there is none behind the end, none for a search and none for
/// the follows.
pub proof fn law_the_next_page_is_of_what_is_on_screen(discovery: Discovery)
    ensures
        discovery.search is Some ==> discovery.next_page() is None,
        discovery.search is None && discovery.channel is Some ==> match discovery.next_page() {
            Some(request) => discovery.channel->0.videos.next is Some && request
                == (Request::Videos {
                login: discovery.channel->0.login,
                user_id: discovery.channel->0.user_id,
                after: discovery.channel->0.videos.next,
            }),
            None => discovery.channel->0.videos.next is None,
        },
        discovery.search is None && discovery.channel is None && discovery.open is Some
            ==> match discovery.next_page() {
            Some(request) => discovery.streams.next is Some && request == (Request::Category {
                category: discovery.open->0,
                after: discovery.streams.next,
            }),
            None => discovery.streams.next is None,
        },
        discovery.search is None && discovery.channel is None && discovery.open is None ==> match (
            discovery.tab,
            discovery.next_page(),
        ) {
            (Tab::Popular, Some(request)) => discovery.popular.next is Some && request
                == (Request::Popular { after: discovery.popular.next }),
            (Tab::Popular, None) => discovery.popular.next is None,
            (Tab::Categories, Some(request)) => discovery.categories.next is Some && request
                == (Request::Categories { after: discovery.categories.next }),
            (Tab::Categories, None) => discovery.categories.next is None,
            (Tab::Following, request) => request is None,
        },
{
}

/// A search takes the page over with its own words before anything has come,
/// and asks for exactly them; nothing to search for closes it.
pub proof fn law_a_search_asks_for_its_words(
    before: Discovery,
    query: String,
    signed_in: bool,
    after: Discovery,
    r: Option<Request>,
)
    requires
        before.searched(query, signed_in, after, r),
    ensures
        query@.len() == 0 ==> r is None && after.search is None && after.open == before.open
            && after.channel == before.channel,
        query@.len() > 0 ==> after.search is Some && after.search->0.query == query
            && after.search->0.streams@.len() == 0 && after.search->0.categories@.len() == 0
            && after.open is None && after.channel is None,
        query@.len() > 0 && signed_in ==> r == Some(Request::Search(query)) && after.error is None,
        !signed_in ==> r is None,
        after.tab == before.tab,
        after.popular == before.popular,
        after.categories == before.categories,
{
}

/// A refresh asks again, from its beginning, for what is on screen, and for
/// nothing before sign-in.
pub proof fn law_a_refresh_starts_over(
    before: Discovery,
    signed_in: bool,
    after: Discovery,
    r: Option<Request>,
)
    requires
        before.refreshed(signed_in, after, r),
    ensures
        !signed_in ==> r is None,
        signed_in && before.channel is Some ==> r == Some(
            Request::Videos {
                login: before.channel->0.login,
                user_id: before.channel->0.user_id,
                after: None,
            },
        ),
        signed_in && before.channel is None && before.search is Some
            && before.search->0.query@.len() > 0 ==> r == Some(
            Request::Search(before.search->0.query),
        ),
        signed_in && before.channel is None && before.search is None && before.open is Some ==> r
            == Some(Request::Category { category: before.open->0, after: None }),
        signed_in && before.channel is None && before.search is None && before.open is None ==> r
            == Some(
            match before.tab {
                Tab::Following => Request::Follows,
                Tab::Popular => Request::Popular { after: None },
                Tab::Categories => Request::Categories { after: None },
            },
        ),
        after.popular == before.popular,
        after.categories == before.categories,
        after.channel == before.channel || before.search is Some,
{
}

/// A tab that has its list asks for nothing, and one that has not asks for the
/// beginning of it.
pub proof fn law_a_tab_asks_for_what_it_lacks(
    before: Discovery,
    tab: Tab,
    signed_in: bool,
    after: Discovery,
    r: Option<Request>,
)
    requires
        before.on_tab(tab).filled(signed_in, after, r),
    ensures
        after.tab == tab,
        after.open is None && after.search is None && after.channel is None,
        after.popular == before.popular,
        after.categories == before.categories,
        signed_in && tab is Popular && before.popular.items@.len() == 0 ==> r == Some(
            Request::Popular { after: None },
        ),
        signed_in && tab is Categories && before.categories.items@.len() == 0 ==> r == Some(
            Request::Categories { after: None },
        ),
        tab is Following || (tab is Popular && before.popular.items@.len() > 0) || (tab is Categories
            && before.categories.items@.len() > 0) ==> r is None,
        !signed_in ==> r is None,
{
}

/// What opens takes the page over alone, with nothing of what was there before,
/// and asks for its own list from the beginning.
pub proof fn law_what_opens_starts_empty(
    before: Discovery,
    category: Category,
    login: String,
    display_name: String,
    user_id: Option<String>,
    request: Request,
    signed_in: bool,
    with: Discovery,
    after: Discovery,
    r: Option<Request>,
)
    requires
        with.fetched(request, signed_in, after, r),
    ensures
        signed_in ==> r == Some(request) && after.error is None,
        !signed_in ==> r is None && after.error is Some,
        before.opened(category, with) ==> after.open == Some(category) && after.search is None
            && after.channel is None && after.streams.items@.len() == 0 && after.streams.next is None
            && after.tab == before.tab && after.popular == before.popular && after.categories
            == before.categories,
        before.turned_to(login, display_name, user_id, with) ==> after.channel is Some
            && after.channel->0.login == login && after.channel->0.display_name == display_name
            && after.channel->0.user_id == user_id && after.channel->0.videos.items@.len() == 0
            && after.channel->0.videos.next is None && after.open is None && after.search is None
            && after.tab == before.tab && after.popular == before.popular,
{
}

/// What the follows say of a channel counts before what any other list says,
/// and every live list there is is looked through.
pub proof fn law_the_follows_know_best(
    discovery: Discovery,
    follows: Seq<LiveStream>,
    login: Seq<char>,
)
    ensures
        ({
            let known = helix::stream_of(discovery.live_lists(follows), login);
            &&& helix::stream_of(follows, login) is Some ==> known == helix::stream_of(
                follows,
                login,
            )
            &&& helix::stream_of(discovery.popular.items@, login) is Some ==> known is Some
            &&& helix::stream_of(discovery.streams.items@, login) is Some ==> known is Some
            &&& discovery.search is Some && helix::stream_of(
                discovery.search->0.streams@,
                login,
            ) is Some ==> known is Some
            &&& known is Some ==> known->0.user_login@ == login
        }),
{
    let a = follows;
    let b = discovery.popular.items@;
    let c = discovery.streams.items@;
    let d = match discovery.search {
        Some(results) => results.streams@,
        None => Seq::empty(),
    };
    helix::lemma_stream_of_both(a + b + c, d, login);
    helix::lemma_stream_of_both(a + b, c, login);
    helix::lemma_stream_of_both(a, b, login);
    helix::lemma_stream_of(discovery.live_lists(follows), login);
}

/// Who is not signed in is told so and nothing is asked for; who is has what
/// went wrong before taken away, and what is asked for is the request itself.
pub proof fn law_browsing_needs_a_sign_in(
    before: Discovery,
    request: Request,
    signed_in: bool,
    after: Discovery,
    r: Option<Request>,
)
    requires
        before.fetched(request, signed_in, after, r),
    ensures
        signed_in ==> after.error is None && r == Some(request),
        !signed_in ==> r is None && after.error is Some && after.error->0@
            == "Sign in to Twitch to browse."@,
        after.tab == before.tab && after.open == before.open && after.search == before.search
            && after.channel == before.channel,
{
}

} // verus!
