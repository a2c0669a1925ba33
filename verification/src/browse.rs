//! The browse page: what it holds, what it says, and which of its lists is on
//! screen.

use crate::double;
use crate::helix::{Category, LiveStream, Video};
use crate::layout;
use crate::moment;
use crate::moment::Moment;
use crate::text;
use vstd::arithmetic::div_mod::*;
use vstd::prelude::*;
use vstd::string::*;

verus! {

/// How many category matches a search shows.
///
/// Twitch matches category names loosely, and an uncapped list buries the
/// channel that was looked for. They come in order of relevance.
pub const SEARCH_CATEGORY_LIMIT: usize = 12;

/// Which of the browse page's lists is showing.
#[derive(Debug, Clone, Copy, PartialEq, Eq, Structural)]
pub enum Tab {
    Following,
    Popular,
    Categories,
}

impl Default for Tab {
    fn default() -> (r: Tab)
        ensures
            r == Tab::Following,
    {
        Tab::Following
    }
}

impl Tab {
    /// Every tab, in the order they are shown.
    pub fn all() -> (r: [Tab; 3])
        ensures
            r@ == seq![Tab::Following, Tab::Popular, Tab::Categories],
    {
        let r = [Tab::Following, Tab::Popular, Tab::Categories];
        assert(r@ =~= seq![Tab::Following, Tab::Popular, Tab::Categories]);
        r
    }

    pub fn label(self) -> (r: &'static str)
        ensures
            r@ == match self {
                Tab::Following => "following"@,
                Tab::Popular => "popular"@,
                Tab::Categories => "categories"@,
            },
    {
        match self {
            Tab::Following => "following",
            Tab::Popular => "popular",
            Tab::Categories => "categories",
        }
    }
}

// ── Lists that come a page at a time ─────────────────────────────────

/// A list that arrives a page at a time, with the cursor of the next page
/// kept beside the items.
#[derive(Debug, Clone)]
pub struct Listing<T> {
    pub items: Vec<T>,
    /// Where the next page starts. `None` means that there is no more.
    pub next: Option<String>,
}

impl<T> Default for Listing<T> {
    fn default() -> (r: Listing<T>)
        ensures
            r.items@.len() == 0,
            r.next is None,
    {
        Listing { items: Vec::new(), next: None }
    }
}

impl<T> Listing<T> {
    pub fn is_empty(&self) -> (r: bool)
        ensures
            r == (self.items@.len() == 0),
    {
        self.items.len() == 0
    }

    /// Take a page, either replacing the list or extending it.
    pub fn absorb(&mut self, items: Vec<T>, next: Option<String>, append: bool)
        ensures
            final(self).items@ == (if append {
                old(self).items@ + items@
            } else {
                items@
            }),
            final(self).next == next,
    {
        if append {
            let mut more = items;
            self.items.append(&mut more);
        } else {
            self.items = items;
        }
        self.next = next;
    }

    pub fn clear(&mut self)
        ensures
            final(self).items@.len() == 0,
            final(self).next is None,
    {
        self.items.clear();
        self.next = None;
    }
}

/// What a search turned up. Both kinds at once, because a name is as likely
/// to mean a game as a channel.
#[derive(Debug, Clone)]
pub struct SearchResults {
    pub query: String,
    pub categories: Vec<Category>,
    pub streams: Vec<LiveStream>,
}

impl SearchResults {
    pub fn is_empty(&self) -> (r: bool)
        ensures
            r == (self.categories@.len() == 0 && self.streams@.len() == 0),
    {
        self.categories.len() == 0 && self.streams.len() == 0
    }

    /// How many of the categories are shown.
    pub fn shown(&self) -> (r: usize)
        ensures
            r == (if self.categories@.len() < 12 {
                self.categories@.len()
            } else {
                12
            }),
    {
        if self.categories.len() < SEARCH_CATEGORY_LIMIT {
            self.categories.len()
        } else {
            SEARCH_CATEGORY_LIMIT
        }
    }
}

/// A channel's page: its past broadcasts.
#[derive(Debug, Clone)]
pub struct ChannelPage {
    pub login: String,
    pub display_name: String,
    /// Known once a list has come back, or where the channel is followed.
    pub user_id: Option<String>,
    pub videos: Listing<Video>,
}

/// Everything the browse page shows that is not the follows list.
#[derive(Debug, Clone)]
pub struct Discovery {
    pub tab: Tab,
    pub popular: Listing<LiveStream>,
    pub categories: Listing<Category>,
    /// Set while looking inside one category, which takes over the page.
    pub open: Option<Category>,
    /// Set while showing search results, which also take over the page.
    pub search: Option<SearchResults>,
    /// Set while looking at one channel's past broadcasts, which also take
    /// over the page.
    pub channel: Option<ChannelPage>,
    /// Streams within `open`.
    pub streams: Listing<LiveStream>,
    /// A request is in flight. One at a time, so one flag is enough.
    pub loading: bool,
    /// A browse request failed. Separate from a failed sign-in: the session is
    /// fine, and only that list is empty.
    pub error: Option<String>,
}

impl Default for Discovery {
    fn default() -> (r: Discovery)
        ensures
            r.tab == Tab::Following,
            r.popular.items@.len() == 0 && r.popular.next is None,
            r.categories.items@.len() == 0 && r.categories.next is None,
            r.open is None,
            r.search is None,
            r.channel is None,
            r.streams.items@.len() == 0 && r.streams.next is None,
            !r.loading,
            r.error is None,
    {
        Discovery {
            tab: Tab::Following,
            popular: Listing { items: Vec::new(), next: None },
            categories: Listing { items: Vec::new(), next: None },
            open: None,
            search: None,
            channel: None,
            streams: Listing { items: Vec::new(), next: None },
            loading: false,
            error: None,
        }
    }
}

/// Something the user did on the browse page.
#[derive(Debug, Clone)]
pub enum Action {
    /// Watch this channel alone.
    Watch(String),
    /// Add it beside whatever is already playing.
    Add(String),
    OpenCategory(Category),
    CloseCategory,
    CloseSearch,
    /// Open the settings sheet.
    OpenSettings,
    /// Fetch the next page of whichever list is on screen.
    LoadMore,
    /// Look at a channel's past broadcasts.
    OpenChannel { login: String, display_name: String, user_id: Option<String> },
    CloseChannel,
    /// Watch this recording alone.
    WatchVideo(Box<Video>),
    /// Add it beside whatever is already playing.
    AddVideo(Box<Video>),
}

/// How far sign-in has got.
#[derive(Debug, Clone, PartialEq, Eq)]
pub enum SignIn {
    Connecting,
    NeedsClientId,
    AwaitingCode { user_code: String, verification_uri: String },
    SignedIn(String),
    Error(String),
}

impl SignIn {
    /// The line that says how far sign-in has got.
    pub open spec fn told(self) -> Seq<char> {
        match self {
            SignIn::SignedIn(login) => "Signed in as "@ + login@,
            SignIn::Connecting => "Connecting…"@,
            SignIn::NeedsClientId => "Not signed in"@,
            SignIn::AwaitingCode { user_code, .. } => "Enter "@ + user_code@
                + " at twitch.tv/activate"@,
            SignIn::Error(reason) => reason@,
        }
    }

    pub fn summary(&self) -> (r: String)
        ensures
            r@ == self.told(),
    {
        match self {
            SignIn::SignedIn(login) => text::concat2("Signed in as ", login.as_str()),
            SignIn::Connecting => "Connecting…".to_owned(),
            SignIn::NeedsClientId => "Not signed in".to_owned(),
            SignIn::AwaitingCode { user_code, .. } => text::concat3(
                "Enter ",
                user_code.as_str(),
                " at twitch.tv/activate",
            ),
            SignIn::Error(reason) => reason.clone(),
        }
    }

    pub fn signed_in(&self) -> (r: bool)
        ensures
            r == (self is SignedIn),
    {
        match self {
            SignIn::SignedIn(_) => true,
            _ => false,
        }
    }
}

// ── How long, and how many ───────────────────────────────────────────

/// A span of whole seconds as "3h 12m", or "12m" where it is under an hour.
pub open spec fn span(secs: nat) -> Seq<char> {
    let minutes = text::decimal((secs / 60) % 60) + "m"@;
    if secs >= 3600 {
        text::decimal(secs / 3600) + "h "@ + minutes
    } else {
        minutes
    }
}

/// How long a stream has been up at a moment, where its start can be read and
/// is not still to come.
pub open spec fn up_at(started_at: Seq<char>, now: Moment) -> Option<Seq<char>> {
    match moment::named(started_at) {
        Some(started) => match now.seconds_since(started) {
            Some(secs) => Some(span(secs)),
            None => None,
        },
        None => None,
    }
}

pub(crate) fn push_span(out: &mut String, secs: u128)
    requires
        secs / 3600 <= u64::MAX,
    ensures
        final(out)@ == old(out)@ + span(secs as nat),
{
    let hours: u64 = (secs / 3600) as u64;
    let minutes: u64 = ((secs / 60) % 60) as u64;
    if hours > 0 {
        text::push_decimal(out, hours);
        out.append("h ");
    }
    text::push_decimal(out, minutes);
    out.append("m");
    assert(out@ =~= old(out)@ + span(secs as nat));
}

/// "3h 12m" since the stream started, or `None` if the timestamp is unusable.
///
/// Twitch sends RFC 3339; anything else shows nothing rather than a wrong
/// number.
pub fn uptime_at(started_at: &str, now: &Moment) -> (r: Option<String>)
    ensures
        match r {
            Some(shown) => up_at(started_at@, *now) == Some(shown@),
            None => up_at(started_at@, *now) is None,
        },
{
    match moment::parse(started_at) {
        Some(started) => match now.secs_since(&started) {
            Some(secs) => {
                let mut out = String::new();
                proof {
                    moment::lemma_seconds_fit(*now, started);
                }
                push_span(&mut out, secs);
                assert(out@ =~= span(secs as nat));
                Some(out)
            },
            None => None,
        },
        None => None,
    }
}

/// [`uptime_at`], by this machine's clock.
pub fn uptime(started_at: &str) -> (r: Option<String>)
    ensures
        moment::named(started_at@) is None ==> r is None,
        exists|now: Moment|
            match r {
                Some(shown) => #[trigger] up_at(started_at@, now) == Some(shown@),
                None => up_at(started_at@, now) is None,
            },
{
    let now = moment::now();
    uptime_at(started_at, &now)
}

/// The tenths in `count` over `unit`, divided as double-precision numbers are
/// and rounded to one place, a tie going to the even digit.
pub open spec fn tenths(count: nat, unit: nat) -> nat {
    let n = double::as_double(count);
    let fine = double::fineness(n, unit);
    double::nearest(double::nearest(n * fine, unit) * 10, fine)
}

/// A count as it is shown: in full under a thousand, and otherwise in
/// thousands or millions with one place behind the point.
pub open spec fn viewers(count: nat) -> Seq<char> {
    if count >= 1_000_000 {
        one_place(tenths(count, 1_000_000)) + "M"@
    } else if count >= 1_000 {
        one_place(tenths(count, 1_000)) + "k"@
    } else {
        text::decimal(count)
    }
}

/// A number of tenths with its point.
pub open spec fn one_place(n: nat) -> Seq<char> {
    text::decimal(n / 10) + "."@ + text::decimal(n % 10)
}

/// Where `count` is not small beside `unit`, and not too large for a
/// double-precision quotient with a fraction.
fn tenths_of(count: u64, unit: u64) -> (r: u64)
    requires
        unit == 1_000 && 1_000 <= count < 1_000_000 || unit == 1_000_000 && 1_000_000 <= count,
    ensures
        r == tenths(count as nat, unit as nat),
{
    let n: u128 = double::double_of(count);
    let limit: u128 = 0x10_0000_0000_0000 * unit as u128;
    let mut m: u128 = n;
    let mut fine: u128 = 1;
    while m < limit
        invariant
            limit == 0x10_0000_0000_0000 * unit,
            unit == 1_000 || unit == 1_000_000,
            unit <= n,
            m == n * fine,
            0 < fine <= m < 2 * limit,
            fine * double::fineness(m as nat, unit as nat) == double::fineness(n as nat, unit as nat),
        decreases 2 * limit - m,
    {
        proof {
            let f = double::fineness(2 * m as nat, unit as nat) as int;
            assert((2 * fine) * f == fine * (2 * f)) by (nonlinear_arith);
            assert(n * (2 * fine) == 2 * (n * fine)) by (nonlinear_arith);
        }
        m = 2 * m;
        fine = 2 * fine;
    }
    proof {
        let rest = double::fineness(m as nat, unit as nat);
        assert(fine * rest == fine) by (nonlinear_arith)
            requires
                rest == 1,
        ;
        assert(fine == double::fineness(n as nat, unit as nat));
        let f = fine as int;
        let u = unit as int;
        let k = n as int;
        assert(f < 0x20_0000_0000_0000) by (nonlinear_arith)
            requires
                k * f < 2 * (0x10_0000_0000_0000 * u),
                u <= k,
                0 < u,
                0 < f,
        ;
    }
    let q: u128 = double::nearest_of(m, unit as u128);
    let r: u128 = double::nearest_of(q * 10, fine);
    proof {
        let x = (q * 10) as int;
        let f = fine as int;
        assert(x / f <= x) by (nonlinear_arith)
            requires
                x >= 0,
                f >= 1,
        ;
        assert(q <= 0x20_0000_0000_0001);
        assert(r == tenths(count as nat, unit as nat));
    }
    r as u64
}

pub fn format_viewers(count: u64) -> (r: String)
    ensures
        r@ == viewers(count as nat),
{
    let mut out = String::new();
    if count >= 1_000 {
        let unit: u64 = if count >= 1_000_000 {
            1_000_000
        } else {
            1_000
        };
        let n: u64 = tenths_of(count, unit);
        text::push_decimal(&mut out, n / 10);
        out.append(".");
        text::push_decimal(&mut out, n % 10);
        if count >= 1_000_000 {
            out.append("M");
        } else {
            out.append("k");
        }
    } else {
        text::push_decimal(&mut out, count);
    }
    assert(out@ =~= viewers(count as nat));
    out
}

/// The corner of a stream's card: how many are watching, and for how long it
/// has been up where that is known.
pub open spec fn watching(stream: LiveStream, now: Moment) -> Seq<char> {
    match up_at(stream.started_at@, now) {
        Some(up) => viewers(stream.viewer_count as nat) + " · "@ + up,
        None => viewers(stream.viewer_count as nat),
    }
}

pub fn watching_at(stream: &LiveStream, now: &Moment) -> (r: String)
    ensures
        r@ == watching(*stream, *now),
{
    let mut out = format_viewers(stream.viewer_count);
    match uptime_at(stream.started_at.as_str(), now) {
        Some(up) => {
            out.append(" · ");
            out.append(up.as_str());
        },
        None => {},
    }
    out
}

// ── How wide a card is ───────────────────────────────────────────────

/// Round a page, in pixels.
pub const PAGE_PAD: u32 = 20;

/// The narrowest, and the widest, a stream's card and a category's are, in
/// pixels.
pub const CARD_MIN: u32 = 260;

pub const CARD_MAX: u32 = 380;

pub const CATEGORY_MIN: u32 = 150;

pub const CATEGORY_MAX: u32 = 200;

/// The width a row of cards has: the page less its padding, and at least one
/// card.
pub open spec fn row_width(width: int, min: int) -> int {
    layout::at_least(width - 2 * PAGE_PAD * layout::PIXEL, min)
}

/// How many cards of the least width fit, counting the gap that each one after
/// the first brings with it.
pub open spec fn columns(width: int, min: int, gap: int) -> int {
    (row_width(width, min) + gap) / (min + gap)
}

/// The width that as many cards share evenly.
pub open spec fn shared_width(width: int, min: int, gap: int) -> int {
    (row_width(width, min) - (columns(width, min, gap) - 1) * gap) / columns(width, min, gap)
}

/// How wide each card should be to fill `width` with as many columns as fit.
/// `gap` is the space between cards. All in [`layout::PIXEL`]ths of a pixel.
pub fn card_width(width: u32, min: u32, max: u32, gap: u32) -> (r: u32)
    requires
        0 < min <= max,
    ensures
        r == layout::held(
            shared_width(width as int, min as int, gap as int),
            min as int,
            max as int,
        ),
{
    let pad: u32 = 2 * PAGE_PAD * layout::PIXEL;
    let usable: u64 = if width >= pad && width - pad > min {
        (width - pad) as u64
    } else {
        min as u64
    };
    assert(usable == row_width(width as int, min as int));
    let count: u64 = (usable + gap as u64) / (min as u64 + gap as u64);
    assert(count == columns(width as int, min as int, gap as int));
    proof {
        lemma_columns(width as int, min as int, gap as int);
    }
    let each: u64 = (usable - (count - 1) * gap as u64) / count;
    if each < min as u64 {
        min
    } else if each > max as u64 {
        max
    } else {
        each as u32
    }
}

proof fn lemma_columns(width: int, min: int, gap: int)
    requires
        0 < min,
        0 <= gap,
    ensures
        columns(width, min, gap) >= 1,
        columns(width, min, gap) * min + (columns(width, min, gap) - 1) * gap <= row_width(width, min),
        row_width(width, min) < (columns(width, min, gap) + 1) * min + columns(width, min, gap) * gap,
        0 <= (columns(width, min, gap) - 1) * gap <= row_width(width, min),
{
    let usable = row_width(width, min);
    let n = columns(width, min, gap);
    let step = min + gap;
    lemma_fundamental_div_mod(usable + gap, step);
    lemma_mod_bound(usable + gap, step);
    assert(n >= 1) by (nonlinear_arith)
        requires
            step > 0,
            usable + gap >= step,
            usable + gap < step * n + step,
    ;
    assert(step * n == n * min + n * gap) by (nonlinear_arith)
        requires
            step == min + gap,
    ;
    assert((n - 1) * gap == n * gap - gap) by (nonlinear_arith);
    assert((n + 1) * min == n * min + min) by (nonlinear_arith);
    assert(n * min >= 0 && (n - 1) * gap >= 0) by (nonlinear_arith)
        requires
            n >= 1,
            min > 0,
            gap >= 0,
    ;
}

/// The row is filled, not merely fitted: cards as wide as they may share it
/// leave less than their own number of units over, and none is narrower than it
/// may be.
pub proof fn law_cards_fill_their_row(width: int, min: int, gap: int)
    requires
        0 < min,
        0 <= gap,
    ensures
        ({
            let n = columns(width, min, gap);
            let each = shared_width(width, min, gap);
            let used = n * each + (n - 1) * gap;
            &&& min <= each
            &&& used <= row_width(width, min) < used + n
        }),
{
    let n = columns(width, min, gap);
    let each = shared_width(width, min, gap);
    let room = row_width(width, min) - (n - 1) * gap;
    lemma_columns(width, min, gap);
    lemma_fundamental_div_mod(room, n);
    lemma_mod_bound(room, n);
    assert(min <= each) by (nonlinear_arith)
        requires
            n >= 1,
            n * min <= room,
            room < n * each + n,
    ;
}

/// Widening the window may add columns and never takes one away.
pub proof fn law_a_wider_page_has_no_fewer_columns(narrow: int, wide: int, min: int, gap: int)
    requires
        narrow <= wide,
        0 < min,
        0 <= gap,
    ensures
        columns(narrow, min, gap) <= columns(wide, min, gap),
{
    lemma_div_is_ordered(row_width(narrow, min) + gap, row_width(wide, min) + gap, min + gap);
}

// ── A page with nothing to show ──────────────────────────────────────

/// A title and an explanation, in place of a list with nothing in it.
#[derive(Debug, Clone, PartialEq, Eq)]
pub struct Notice {
    pub title: String,
    pub detail: String,
    /// Something went wrong.
    pub error: bool,
    /// Something is still happening, so the notice shows that it is alive.
    pub working: bool,
    /// The settings sheet is what to do about it.
    pub settings: bool,
}

#[verifier::ext_equal]
pub struct NoticeView {
    pub title: Seq<char>,
    pub detail: Seq<char>,
    pub error: bool,
    pub working: bool,
    pub settings: bool,
}

impl View for Notice {
    type V = NoticeView;

    open spec fn view(&self) -> NoticeView {
        NoticeView {
            title: self.title@,
            detail: self.detail@,
            error: self.error,
            working: self.working,
            settings: self.settings,
        }
    }
}

/// What the Following tab shows while there is nobody to list.
#[derive(Debug, Clone, PartialEq, Eq)]
pub enum Empty {
    /// The code to authorise the application with, and where.
    Code { user_code: String, verification_uri: String },
    Say(Notice),
}

#[verifier::ext_equal]
pub enum EmptyView {
    Code { user_code: Seq<char>, verification_uri: Seq<char> },
    Say(NoticeView),
}

impl View for Empty {
    type V = EmptyView;

    open spec fn view(&self) -> EmptyView {
        match self {
            Empty::Code { user_code, verification_uri } => EmptyView::Code {
                user_code: user_code@,
                verification_uri: verification_uri@,
            },
            Empty::Say(notice) => EmptyView::Say(notice@),
        }
    }
}

/// What is said while nobody is listed. A session that is signed in with empty
/// lists is two different states: until the first list has come, it is still a
/// question being asked. Only what is still going on is alive, and the two
/// states one can do something about offer what to do.
pub open spec fn nobody(sign_in: SignIn, follows_loaded: bool) -> EmptyView {
    match sign_in {
        SignIn::AwaitingCode { user_code, verification_uri } => EmptyView::Code {
            user_code: user_code@,
            verification_uri: verification_uri@,
        },
        SignIn::NeedsClientId => EmptyView::Say(
            NoticeView {
                title: "Not signed in"@,
                detail: "Open settings and paste a Twitch Client ID to see who you follow."@,
                error: false,
                working: false,
                settings: true,
            },
        ),
        SignIn::Error(reason) => EmptyView::Say(
            NoticeView {
                title: "Sign-in problem"@,
                detail: reason@,
                error: true,
                working: false,
                settings: true,
            },
        ),
        SignIn::Connecting => EmptyView::Say(
            NoticeView {
                title: "Connecting…"@,
                detail: "Asking Twitch who is live."@,
                error: false,
                working: true,
                settings: false,
            },
        ),
        SignIn::SignedIn(_) => if follows_loaded {
            EmptyView::Say(
                NoticeView {
                    title: "Nobody is live"@,
                    detail: "None of the channels you follow are streaming right now."@,
                    error: false,
                    working: false,
                    settings: false,
                },
            )
        } else {
            EmptyView::Say(
                NoticeView {
                    title: "Loading…"@,
                    detail: "Asking Twitch who you follow."@,
                    error: false,
                    working: true,
                    settings: false,
                },
            )
        },
    }
}

fn notice(title: &str, detail: &str, error: bool, working: bool, settings: bool) -> (r: Notice)
    ensures
        r@ == (NoticeView { title: title@, detail: detail@, error, working, settings }),
{
    Notice { title: title.to_owned(), detail: detail.to_owned(), error, working, settings }
}

/// A message filling the page when there is nobody to list.
pub fn empty_state(sign_in: &SignIn, follows_loaded: bool) -> (r: Empty)
    ensures
        r@ == nobody(*sign_in, follows_loaded),
{
    match sign_in {
        SignIn::AwaitingCode { user_code, verification_uri } => Empty::Code {
            user_code: user_code.clone(),
            verification_uri: verification_uri.clone(),
        },
        SignIn::NeedsClientId => Empty::Say(
            notice(
                "Not signed in",
                "Open settings and paste a Twitch Client ID to see who you follow.",
                false,
                false,
                true,
            ),
        ),
        SignIn::Error(reason) => Empty::Say(
            notice("Sign-in problem", reason.as_str(), true, false, true),
        ),
        SignIn::Connecting => Empty::Say(
            notice("Connecting…", "Asking Twitch who is live.", false, true, false),
        ),
        SignIn::SignedIn(_) => if follows_loaded {
            Empty::Say(
                notice(
                    "Nobody is live",
                    "None of the channels you follow are streaming right now.",
                    false,
                    false,
                    false,
                ),
            )
        } else {
            Empty::Say(notice("Loading…", "Asking Twitch who you follow.", false, true, false))
        },
    }
}

impl Discovery {
    /// What a list shows when it has nothing in it: what went wrong, that it is
    /// being asked for, or `empty`.
    pub open spec fn in_place(self, empty: Seq<char>) -> NoticeView {
        match self.error {
            Some(reason) => NoticeView {
                title: "Could not reach Twitch"@,
                detail: reason@,
                error: true,
                working: false,
                settings: false,
            },
            None => if self.loading {
                NoticeView {
                    title: "Loading…"@,
                    detail: "Asking Twitch what is on."@,
                    error: false,
                    working: true,
                    settings: false,
                }
            } else {
                NoticeView {
                    title: "Nothing here"@,
                    detail: empty,
                    error: false,
                    working: false,
                    settings: false,
                }
            },
        }
    }

    pub fn browse_placeholder(&self, empty: &str) -> (r: Notice)
        ensures
            r@ == self.in_place(empty@),
    {
        match &self.error {
            Some(reason) => notice("Could not reach Twitch", reason.as_str(), true, false, false),
            None => if self.loading {
                notice("Loading…", "Asking Twitch what is on.", false, true, false)
            } else {
                notice("Nothing here", empty, false, false, false)
            },
        }
    }
}

// ── What is on the page ──────────────────────────────────────────────

/// The body of the browse page: one list, or what stands in for it while it
/// has nothing in it.
#[derive(Debug, Clone, PartialEq, Eq)]
pub enum Body {
    Channel(Option<Notice>),
    Search(Option<Notice>),
    Category(Option<Notice>),
    Nobody(Empty),
    Following,
    Popular(Option<Notice>),
    Categories(Option<Notice>),
}

#[verifier::ext_equal]
pub enum BodyView {
    Channel(Option<NoticeView>),
    Search(Option<NoticeView>),
    Category(Option<NoticeView>),
    Nobody(EmptyView),
    Following,
    Popular(Option<NoticeView>),
    Categories(Option<NoticeView>),
}

/// A notice that may not be there, as it reads.
pub open spec fn read_notice(notice: Option<Notice>) -> Option<NoticeView> {
    match notice {
        Some(notice) => Some(notice@),
        None => None,
    }
}

impl View for Body {
    type V = BodyView;

    open spec fn view(&self) -> BodyView {
        match self {
            Body::Channel(notice) => BodyView::Channel(read_notice(*notice)),
            Body::Search(notice) => BodyView::Search(read_notice(*notice)),
            Body::Category(notice) => BodyView::Category(read_notice(*notice)),
            Body::Nobody(empty) => BodyView::Nobody(empty@),
            Body::Following => BodyView::Following,
            Body::Popular(notice) => BodyView::Popular(read_notice(*notice)),
            Body::Categories(notice) => BodyView::Categories(read_notice(*notice)),
        }
    }
}

impl Discovery {
    /// The notice that stands in for a list, where the list is empty.
    pub open spec fn unless(self, filled: bool, empty: Seq<char>) -> Option<NoticeView> {
        if filled {
            None
        } else {
            Some(self.in_place(empty))
        }
    }

    /// What is on the page. A channel's page, a search and a category take the
    /// page over rather than nesting inside a tab, so there is only ever one
    /// thing to scroll. Sign-in lives on the Following tab, and shows there
    /// while neither list of follows has anyone in it.
    pub open spec fn on_page(self, anyone: bool, sign_in: SignIn, follows_loaded: bool) -> BodyView {
        if let Some(page) = self.channel {
            BodyView::Channel(
                self.unless(
                    page.videos.items@.len() > 0,
                    page.display_name@
                        + " has no past broadcasts. Twitch keeps them only for channels that ask it to."@,
                ),
            )
        } else if let Some(results) = self.search {
            BodyView::Search(
                self.unless(
                    results.categories@.len() > 0 || results.streams@.len() > 0,
                    "Nothing live matches “"@ + results.query@ + "”."@,
                ),
            )
        } else if let Some(category) = self.open {
            BodyView::Category(
                self.unless(
                    self.streams.items@.len() > 0,
                    "Nobody is streaming "@ + category.name@ + " right now."@,
                ),
            )
        } else {
            match self.tab {
                Tab::Following => if anyone {
                    BodyView::Following
                } else {
                    BodyView::Nobody(nobody(sign_in, follows_loaded))
                },
                Tab::Popular => BodyView::Popular(
                    self.unless(
                        self.popular.items@.len() > 0,
                        "Twitch reported nothing live, which would be a first."@,
                    ),
                ),
                Tab::Categories => BodyView::Categories(
                    self.unless(
                        self.categories.items@.len() > 0,
                        "No categories came back."@,
                    ),
                ),
            }
        }
    }

    fn standing_in(&self, filled: bool, empty: &str) -> (r: Option<Notice>)
        ensures
            read_notice(r) == self.unless(filled, empty@),
    {
        if filled {
            None
        } else {
            Some(self.browse_placeholder(empty))
        }
    }

    /// What the browse page shows. `anyone` is whether anybody is on either of
    /// the two lists of follows.
    pub fn page(&self, anyone: bool, sign_in: &SignIn, follows_loaded: bool) -> (r: Body)
        ensures
            r@ == self.on_page(anyone, *sign_in, follows_loaded),
    {
        if let Some(page) = &self.channel {
            let empty = text::concat2(
                page.display_name.as_str(),
                " has no past broadcasts. Twitch keeps them only for channels that ask it to.",
            );
            Body::Channel(self.standing_in(!page.videos.is_empty(), empty.as_str()))
        } else if let Some(results) = &self.search {
            let empty = text::concat3("Nothing live matches “", results.query.as_str(), "”.");
            Body::Search(self.standing_in(!results.is_empty(), empty.as_str()))
        } else if let Some(category) = &self.open {
            let empty = text::concat3("Nobody is streaming ", category.name.as_str(), " right now.");
            Body::Category(self.standing_in(!self.streams.is_empty(), empty.as_str()))
        } else {
            match self.tab {
                Tab::Following => if anyone {
                    Body::Following
                } else {
                    Body::Nobody(empty_state(sign_in, follows_loaded))
                },
                Tab::Popular => Body::Popular(
                    self.standing_in(
                        !self.popular.is_empty(),
                        "Twitch reported nothing live, which would be a first.",
                    ),
                ),
                Tab::Categories => Body::Categories(
                    self.standing_in(!self.categories.is_empty(), "No categories came back."),
                ),
            }
        }
    }
}

/// The row at the end of a list that comes in pages.
#[derive(Debug, Clone, Copy, PartialEq, Eq, Structural)]
pub enum More {
    /// There is no more, and no row.
    Nothing,
    /// A page is on its way, and the row takes no clicks, so one cursor cannot
    /// be spent twice.
    Loading,
    /// The next page can be asked for.
    Offer,
}

pub fn load_more_row(more: bool, loading: bool) -> (r: More)
    ensures
        r == (if !more {
            More::Nothing
        } else if loading {
            More::Loading
        } else {
            More::Offer
        }),
{
    if !more {
        More::Nothing
    } else if loading {
        More::Loading
    } else {
        More::Offer
    }
}

// ── Laws ─────────────────────────────────────────────────────────────

/// How long a stream has been up is told in hours and minutes, and in minutes
/// alone under an hour.
pub proof fn law_uptime_is_told_by_its_parts(
    started_at: Seq<char>,
    started: Moment,
    hours: nat,
    minutes: nat,
    seconds: nat,
    now: Moment,
)
    requires
        moment::named(started_at) == Some(started),
        started.nanos < 1_000_000_000,
        now.nanos == started.nanos,
        minutes < 60,
        seconds < 60,
        now.secs == started.secs + hours * 3600 + minutes * 60 + seconds,
    ensures
        hours > 0 ==> up_at(started_at, now) == Some(
            text::decimal(hours) + "h "@ + (text::decimal(minutes) + "m"@),
        ),
        hours == 0 ==> up_at(started_at, now) == Some(text::decimal(minutes) + "m"@),
{
    let all = hours * 3600 + minutes * 60 + seconds;
    lemma_parts(hours, minutes, seconds);
    moment::lemma_apart(now, started, all);
}

proof fn lemma_parts(hours: nat, minutes: nat, seconds: nat)
    requires
        minutes < 60,
        seconds < 60,
    ensures
        ({
            let all = hours * 3600 + minutes * 60 + seconds;
            all / 3600 == hours && (all / 60) % 60 == minutes && (hours == 0 <==> all < 3600)
        }),
{
    let all = hours * 3600 + minutes * 60 + seconds;
    assert(all / 60 == hours * 60 + minutes);
}

/// Nothing is said of a start that cannot be read, nor of one that is still to
/// come.
pub proof fn law_no_uptime_is_made_up(started_at: Seq<char>, now: Moment)
    requires
        now.nanos < 1_000_000_000,
    ensures
        moment::named(started_at) is None ==> up_at(started_at, now) is None,
        moment::named(started_at) matches Some(started) ==> (started.nanos < 1_000_000_000
            && started.secs > now.secs + 1 ==> up_at(started_at, now) is None),
{
}

/// A count is written out under a thousand, and otherwise in the tenths of
/// thousands or millions that are nearest to it.
pub proof fn law_a_count_is_told_to_the_nearest_tenth(count: nat)
    requires
        count < 0x1_0000_0000_0000,
    ensures
        count < 1_000 ==> viewers(count) == text::decimal(count),
        1_000 <= count < 1_000_000 ==> viewers(count) == one_place(tenths(count, 1_000)) + "k"@
            && -1_000 <= 2 * (tenths(count, 1_000) * 1_000 - 10 * count) <= 1_000,
        1_000_000 <= count ==> viewers(count) == one_place(tenths(count, 1_000_000)) + "M"@
            && -1_000_000 <= 2 * (tenths(count, 1_000_000) * 1_000_000 - 10 * count) <= 1_000_000,
        one_place(count) == text::decimal(count / 10) + "."@ + text::decimal(count % 10),
{
    if count >= 1_000_000 {
        lemma_tenths(count, 1_000_000);
    } else if count >= 1_000 {
        lemma_tenths(count, 1_000);
    }
}

#[verifier::spinoff_prover]
proof fn lemma_tenths(count: nat, unit: nat)
    requires
        0 < unit <= count < 0x1_0000_0000_0000,
    ensures
        -unit <= 2 * (tenths(count, unit) * unit - 10 * count) <= unit,
{
    assert(double::as_double(count) == count) by {
        assert(double::gap(count) == 1);
        double::lemma_nearest_is(count, 1, count);
    }
    let fine = double::fineness(count, unit);
    double::lemma_fineness(count, unit);
    let near = double::nearest(count * fine, unit);
    double::lemma_nearest(count * fine, unit);
    double::lemma_nearest(near * 10, fine);
    let (c, u, f, n, t) = (
        count as int,
        unit as int,
        fine as int,
        near as int,
        tenths(count, unit) as int,
    );
    assert(f > 10 * u || f * c >= 0x10_0000_0000_0000 * u) by (nonlinear_arith)
        requires
            c * f >= 0x10_0000_0000_0000 * u || f == 1 && c >= 0x10_0000_0000_0000 * u,
    ;
    assert(f > 10) by (nonlinear_arith)
        requires
            f * c >= 0x10_0000_0000_0000 * u || f > 10 * u,
            0 < u,
            0 < c < 0x1_0000_0000_0000,
            f > 0,
    ;
    let k = t * u - 10 * c;
    // Both roundings together are off by less than half of what one more makes.
    assert(2 * (k * f) <= f * u + 10 * u && 2 * (k * f) >= -(f * u + 10 * u)) by (nonlinear_arith)
        requires
            k == t * u - 10 * c,
            2 * (n * 10) - f <= 2 * (t * f) <= 2 * (n * 10) + f,
            2 * (c * f) - u <= 2 * (n * u) <= 2 * (c * f) + u,
            u > 0,
            f > 0,
    ;
    assert(f > 10 * u) by (nonlinear_arith)
        requires
            c * f >= 0x10_0000_0000_0000 * u,
            u > 0,
            0 < c < 0x1_0000_0000_0000,
            u <= c,
            f > 0,
    ;
    assert(-u <= 2 * k <= u) by (nonlinear_arith)
        requires
            2 * (k * f) <= f * u + 10 * u,
            2 * (k * f) >= -(f * u + 10 * u),
            f > 10 * u,
            u > 0,
    ;
}

/// What has taken the page over is on it: a channel's page before a search, a
/// search before a category, and any of them before the tabs. A list is shown
/// exactly where there is something in it.
pub proof fn law_one_list_is_on_the_page(
    discovery: Discovery,
    anyone: bool,
    sign_in: SignIn,
    loaded: bool,
)
    ensures
        ({
            let page = discovery.on_page(anyone, sign_in, loaded);
            let free = discovery.channel is None && discovery.search is None && discovery.open
                is None;
            &&& page is Channel <==> discovery.channel is Some
            &&& page is Search <==> discovery.channel is None && discovery.search is Some
            &&& page is Category <==> discovery.channel is None && discovery.search is None
                && discovery.open is Some
            &&& page is Following <==> free && discovery.tab is Following && anyone
            &&& page is Nobody <==> free && discovery.tab is Following && !anyone
            &&& page is Popular <==> free && discovery.tab is Popular
            &&& page is Categories <==> free && discovery.tab is Categories
            &&& page is Popular ==> (page->Popular_0 is None <==> discovery.popular.items@.len() > 0)
            &&& page is Categories ==> (page->Categories_0 is None
                <==> discovery.categories.items@.len() > 0)
            &&& page is Category ==> (page->Category_0 is None <==> discovery.streams.items@.len()
                > 0)
            &&& page is Channel ==> (page->Channel_0 is None
                <==> discovery.channel->0.videos.items@.len() > 0)
            &&& page is Search ==> (page->Search_0 is None
                <==> discovery.search->0.categories@.len() > 0
                || discovery.search->0.streams@.len() > 0)
        }),
{
}

/// What stands in for an empty list says what went wrong, if anything did; else
/// that it is being asked for, if it is; and is alive only then.
pub proof fn law_an_empty_list_says_why(discovery: Discovery, empty: Seq<char>)
    ensures
        discovery.in_place(empty).error <==> discovery.error is Some,
        discovery.error is Some ==> discovery.in_place(empty).detail == discovery.error->0@,
        discovery.in_place(empty).working <==> discovery.error is None && discovery.loading,
        discovery.error is None && !discovery.loading ==> discovery.in_place(empty).detail == empty,
{
}

/// Where nobody is listed, it is said why: the code to sign in with while one is
/// waited for; the settings where they are what to do; a problem as a problem;
/// and only what is still going on is alive.
pub proof fn law_nobody_listed_is_explained(sign_in: SignIn, loaded: bool)
    ensures
        nobody(sign_in, loaded) is Code <==> sign_in is AwaitingCode,
        sign_in matches SignIn::AwaitingCode { user_code, verification_uri } ==> nobody(
            sign_in,
            loaded,
        ) == (EmptyView::Code { user_code: user_code@, verification_uri: verification_uri@ }),
        nobody(sign_in, loaded) matches EmptyView::Say(notice) ==> {
            &&& notice.error <==> sign_in is Error
            &&& sign_in matches SignIn::Error(reason) ==> notice.detail == reason@
            &&& notice.settings <==> sign_in is Error || sign_in is NeedsClientId
            &&& notice.working <==> sign_in is Connecting || (sign_in is SignedIn && !loaded)
        },
{
}

/// Under a stream stand its viewers, and after a dot how long it has been up
/// where that is known.
pub proof fn law_a_stream_tells_its_viewers_and_its_uptime(stream: LiveStream, now: Moment)
    ensures
        ({
            let count = viewers(stream.viewer_count as nat);
            &&& text::begins(watching(stream, now), count)
            &&& up_at(stream.started_at@, now) is None ==> watching(stream, now) == count
            &&& up_at(stream.started_at@, now) matches Some(up) ==> watching(stream, now).skip(
                count.len() as int,
            ) == " · "@ + up
        }),
{
    let count = viewers(stream.viewer_count as nat);
    assert(watching(stream, now).take(count.len() as int) =~= count);
    if let Some(up) = up_at(stream.started_at@, now) {
        assert(watching(stream, now).skip(count.len() as int) =~= " · "@ + up);
    }
}

/// A row leaves twenty pixels free on either side of it, whatever the width of
/// the page, unless that would make it narrower than its least card.
pub proof fn law_a_row_keeps_off_the_edges(width: int, min: int)
    ensures
        row_width(width, min) >= min,
        width >= min + 40 * layout::PIXEL ==> row_width(width, min) + 20 * layout::PIXEL + 20
            * layout::PIXEL == width,
        width < min + 40 * layout::PIXEL ==> row_width(width, min) == min,
{
}

/// A list that came back empty says whose it is or what was looked for.
pub proof fn law_an_empty_page_says_what_it_is_of(
    discovery: Discovery,
    anyone: bool,
    sign_in: SignIn,
    loaded: bool,
)
    requires
        discovery.error is None,
        !discovery.loading,
    ensures
        discovery.on_page(anyone, sign_in, loaded) matches BodyView::Channel(Some(notice))
            ==> notice.detail == discovery.channel->0.display_name@
            + " has no past broadcasts. Twitch keeps them only for channels that ask it to."@,
        discovery.on_page(anyone, sign_in, loaded) matches BodyView::Search(Some(notice))
            ==> notice.detail == "Nothing live matches “"@ + discovery.search->0.query@ + "”."@,
        discovery.on_page(anyone, sign_in, loaded) matches BodyView::Category(Some(notice))
            ==> notice.detail == "Nobody is streaming "@ + discovery.open->0.name@ + " right now."@,
        discovery.on_page(anyone, sign_in, loaded) matches BodyView::Popular(Some(notice))
            ==> notice.detail == "Twitch reported nothing live, which would be a first."@,
        discovery.on_page(anyone, sign_in, loaded) matches BodyView::Categories(Some(notice))
            ==> notice.detail == "No categories came back."@,
{
}

/// What stands in for a list is titled by what it is: an error, a wait, or
/// nothing; and so is what stands in for the follows.
pub proof fn law_what_stands_in_is_titled(discovery: Discovery, empty: Seq<char>, sign_in: SignIn)
    ensures
        discovery.error is Some ==> discovery.in_place(empty).title == "Could not reach Twitch"@,
        discovery.error is None && discovery.loading ==> discovery.in_place(empty).title
            == "Loading…"@ && discovery.in_place(empty).detail == "Asking Twitch what is on."@,
        discovery.error is None && !discovery.loading ==> discovery.in_place(empty).title
            == "Nothing here"@,
        sign_in is NeedsClientId ==> nobody(sign_in, true)->Say_0.title == "Not signed in"@ && nobody(
            sign_in,
            true,
        )->Say_0.detail == "Open settings and paste a Twitch Client ID to see who you follow."@,
        sign_in is Error ==> nobody(sign_in, true)->Say_0.title == "Sign-in problem"@,
        sign_in is Connecting ==> nobody(sign_in, true)->Say_0.title == "Connecting…"@ && nobody(
            sign_in,
            true,
        )->Say_0.detail == "Asking Twitch who is live."@,
        sign_in is SignedIn ==> nobody(sign_in, true)->Say_0.title == "Nobody is live"@ && nobody(
            sign_in,
            true,
        )->Say_0.detail == "None of the channels you follow are streaming right now."@,
        sign_in is SignedIn ==> nobody(sign_in, false)->Say_0.title == "Loading…"@ && nobody(
            sign_in,
            false,
        )->Say_0.detail == "Asking Twitch who you follow."@,
{
}

} // verus!
