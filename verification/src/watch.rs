//! The watch page: its panes, and what each says about what it is playing.

use crate::browse;
use crate::channel_page;
use crate::helix::{LiveStream, Video};
use crate::moment;
use crate::moment::Moment;
use crate::target;
use crate::text;
use vstd::prelude::*;
use vstd::string::*;

verus! {

/// Beyond this, panes are too small to read chat in.
pub const MAX_PANES: usize = 4;

/// What a pane is playing.
#[derive(Debug, Clone)]
pub enum Source {
    /// A channel, as it broadcasts.
    Live,
    /// One of a channel's past broadcasts.
    Video(Box<Video>),
}

/// How far a pane has got with its stream.
#[derive(Debug, Clone)]
pub enum StreamState {
    Starting,
    /// The player runs, at this quality, and these were on offer.
    Playing { quality: String, available: Vec<String> },
    /// The channel was not broadcasting when the pane opened.
    Offline,
    /// It was, and then it stopped.
    Ended,
    Failed(String),
}

/// One stream and what belongs to it.
#[derive(Debug, Clone)]
pub struct Slot {
    /// What identifies this pane: the login for a live stream, or
    /// [`Slot::video_key`] for a recording.
    pub key: String,
    /// The channel, whether live or recorded.
    pub channel: String,
    pub source: Source,
    /// A quality picked from this pane's controls, overriding the saved
    /// preference until the pane closes.
    pub quality_override: Option<String>,
    pub state: StreamState,
    /// Whether there is a chat to show beside the video: live, or replayed.
    pub has_chat: bool,
    /// Where a recording picks up when its player is started again, in
    /// milliseconds.
    pub resume_at: u64,
    /// Whether streamlink is running for this pane, and listened to.
    pub served: bool,
    /// Whether the pointer is over this pane's video.
    pub hovered: bool,
    /// Whether this pane's chat is hidden, so the video has the whole cell.
    pub chat_hidden: bool,
    /// When this pane last found nothing to play.
    pub stalled_at: Option<Moment>,
}

impl StreamState {
    /// A state with nothing playing and nothing on its way.
    pub open spec fn stalled(self) -> bool {
        self is Offline || self is Ended || self is Failed
    }
}

/// The key a recording's pane gets. Prefixed so that it can never be a login,
/// which is letters, digits and underscores.
pub open spec fn recording_key(id: Seq<char>) -> Seq<char> {
    "vod:"@ + id
}

/// No recording's pane is taken for a channel's: a channel's stream and its
/// recordings can be open side by side.
pub proof fn law_a_recording_is_no_channel(id: Seq<char>, login: Seq<char>)
    requires
        target::login_like(login),
    ensures
        recording_key(id) != login,
{
    reveal_strlit("vod:");
    assert(recording_key(id)[3] == ':');
}

/// Two recordings have two panes.
pub proof fn law_a_recording_has_its_own_key(a: Seq<char>, b: Seq<char>)
    requires
        a != b,
    ensures
        recording_key(a) != recording_key(b),
{
    reveal_strlit("vod:");
    if recording_key(a) == recording_key(b) {
        assert(recording_key(a).skip(4) =~= a);
        assert(recording_key(b).skip(4) =~= b);
    }
}

impl Slot {
    /// The key a recording's pane gets.
    pub fn video_key(video_id: &str) -> (r: String)
        ensures
            r@ == recording_key(video_id@),
    {
        text::concat2("vod:", video_id)
    }

    /// A pane knows since when it has had nothing to play exactly while it has
    /// nothing to play.
    pub open spec fn sound(self) -> bool {
        self.stalled_at is Some <==> self.state.stalled()
    }

    /// This pane moved to `state` at a moment.
    pub open spec fn moved(self, state: StreamState, now: Moment) -> Slot {
        Slot {
            state,
            stalled_at: if state.stalled() {
                Some(now)
            } else {
                None
            },
            ..self
        }
    }

    /// Move to `state`, noting the moment if it is one with nothing playing.
    /// Every change of state goes through here, so the note cannot be
    /// forgotten by one of them.
    pub fn set_state_at(&mut self, state: StreamState, now: &Moment)
        ensures
            *final(self) == old(self).moved(state, *now),
            final(self).sound(),
    {
        self.stalled_at = match state {
            StreamState::Offline | StreamState::Ended | StreamState::Failed(_) => Some(*now),
            StreamState::Starting | StreamState::Playing { .. } => None,
        };
        self.state = state;
    }

    /// [`set_state_at`](Self::set_state_at), by this machine's clock.
    pub fn set_state(&mut self, state: StreamState)
        ensures
            exists|now: Moment| *final(self) == #[trigger] old(self).moved(state, now),
            final(self).sound(),
    {
        let now = moment::now();
        self.set_state_at(state, &now);
    }

    pub open spec fn live(self) -> bool {
        self.source is Live
    }

    pub fn is_live(&self) -> (r: bool)
        ensures
            r == self.live(),
    {
        match &self.source {
            Source::Live => true,
            Source::Video(_) => false,
        }
    }

    pub fn recording(&self) -> (r: Option<&Video>)
        ensures
            match self.source {
                Source::Video(video) => r == Some(&*video),
                Source::Live => r is None,
            },
    {
        match &self.source {
            Source::Video(video) => Some(&**video),
            Source::Live => None,
        }
    }

    pub fn is_playing(&self) -> (r: bool)
        ensures
            r == (self.state is Playing),
    {
        match &self.state {
            StreamState::Playing { .. } => true,
            _ => false,
        }
    }

    /// What the palette calls this pane.
    pub open spec fn called(self) -> Seq<char> {
        if self.live() {
            self.channel@
        } else {
            self.channel@ + " (replay)"@
        }
    }

    /// What the palette calls this pane. The login for a stream, which is what
    /// the palette matches against; a recording says so, so two panes on one
    /// channel read as two things.
    pub fn label(&self) -> (r: String)
        ensures
            r@ == self.called(),
    {
        match &self.source {
            Source::Live => self.channel.clone(),
            Source::Video(_) => text::concat2(self.channel.as_str(), " (replay)"),
        }
    }

    /// Whether the pane lays out as the picture alone: there is no chat, or it
    /// is hidden.
    pub fn chatless(&self) -> (r: bool)
        ensures
            r == (self.chat_hidden || !self.has_chat),
    {
        self.chat_hidden || !self.has_chat
    }
}

// ── In place of a picture ────────────────────────────────────────────

/// What a pane shows in place of a picture.
#[derive(Debug, Clone, PartialEq, Eq)]
pub struct Status {
    pub text: String,
    /// Something is still happening.
    pub working: bool,
    pub error: bool,
    /// What the control says that asks for the stream again, if there is
    /// anything to ask for.
    pub retry: Option<String>,
}

#[verifier::ext_equal]
pub struct StatusView {
    pub text: Seq<char>,
    pub working: bool,
    pub error: bool,
    pub retry: Option<Seq<char>>,
}

impl View for Status {
    type V = StatusView;

    open spec fn view(&self) -> StatusView {
        StatusView {
            text: self.text@,
            working: self.working,
            error: self.error,
            retry: channel_page::read_text(self.retry),
        }
    }
}

/// What a pane shows in place of a picture. The same events read differently
/// for a channel that is off and a recording that has expired, and for a
/// broadcast that finished and a recording that reached its end.
pub open spec fn status_of(slot: Slot) -> Option<StatusView> {
    match slot.state {
        StreamState::Playing { .. } => None,
        StreamState::Starting => Some(
            StatusView {
                text: if slot.live() {
                    "starting stream…"@
                } else {
                    "opening the recording…"@
                },
                working: true,
                error: false,
                retry: None,
            },
        ),
        StreamState::Offline => Some(
            StatusView {
                text: if slot.live() {
                    slot.channel@ + " is offline"@
                } else {
                    "this recording is no longer available"@
                },
                working: false,
                error: false,
                retry: Some("try again"@),
            },
        ),
        StreamState::Ended => Some(
            StatusView {
                text: if slot.live() {
                    slot.channel@ + " ended the stream"@
                } else {
                    "finished"@
                },
                working: false,
                error: false,
                retry: Some(
                    if slot.live() {
                        "try again"@
                    } else {
                        "watch again"@
                    },
                ),
            },
        ),
        StreamState::Failed(reason) => Some(
            StatusView {
                text: reason@,
                working: false,
                error: true,
                retry: Some("try again"@),
            },
        ),
    }
}

pub fn status_message(slot: &Slot) -> (r: Option<Status>)
    ensures
        match r {
            Some(status) => status_of(*slot) == Some(status@),
            None => status_of(*slot) is None,
        },
{
    let live = slot.is_live();
    match &slot.state {
        StreamState::Playing { .. } => None,
        StreamState::Starting => {
            let text = if live {
                "starting stream…".to_owned()
            } else {
                "opening the recording…".to_owned()
            };
            Some(Status { text, working: true, error: false, retry: None })
        },
        StreamState::Offline => {
            let text = if live {
                text::concat2(slot.channel.as_str(), " is offline")
            } else {
                "this recording is no longer available".to_owned()
            };
            Some(
                Status { text, working: false, error: false, retry: Some("try again".to_owned()) },
            )
        },
        StreamState::Ended => {
            let (text, again) = if live {
                (text::concat2(slot.channel.as_str(), " ended the stream"), "try again".to_owned())
            } else {
                ("finished".to_owned(), "watch again".to_owned())
            };
            Some(Status { text, working: false, error: false, retry: Some(again) })
        },
        StreamState::Failed(reason) => Some(
            Status {
                text: reason.clone(),
                working: false,
                error: true,
                retry: Some("try again".to_owned()),
            },
        ),
    }
}

/// A pane that shows no picture always says why, and one that has nothing on
/// its way always offers to ask again.
pub proof fn law_a_pane_without_a_picture_says_why(slot: Slot)
    ensures
        status_of(slot) is None <==> slot.state is Playing,
        status_of(slot) matches Some(status) ==> (status.retry is Some <==> slot.state.stalled()),
        status_of(slot) matches Some(status) ==> (status.working <==> slot.state is Starting),
{
}

// ── The header ───────────────────────────────────────────────────────

/// Everything true about a stream that is not playback: who it is, how many
/// people are there, how long it has been going, and what is on.
#[derive(Debug, Clone, PartialEq, Eq)]
pub struct Header {
    pub name: String,
    /// How many watch, and for how long it has been up. Nothing for a channel
    /// that no list says anything about.
    pub meta: String,
    /// What is on, line by line.
    pub about: Vec<String>,
    /// What is on, in one line.
    pub about_line: String,
    /// The pane shows a broadcast that is happening now.
    pub live_dot: bool,
    /// The pane shows a recording.
    pub replay: bool,
    /// Whether `meta` is shown: a stream that has finished takes its live
    /// numbers with it.
    pub show_meta: bool,
    /// What the name opens, and what is said about that.
    pub url: String,
    pub tooltip: String,
}

#[verifier::ext_equal]
pub struct HeaderView {
    pub name: Seq<char>,
    pub meta: Seq<char>,
    pub about: Seq<Seq<char>>,
    pub about_line: Seq<char>,
    pub live_dot: bool,
    pub replay: bool,
    pub show_meta: bool,
    pub url: Seq<char>,
    pub tooltip: Seq<char>,
}

impl View for Header {
    type V = HeaderView;

    open spec fn view(&self) -> HeaderView {
        HeaderView {
            name: self.name@,
            meta: self.meta@,
            about: text::texts(self.about@),
            about_line: self.about_line@,
            live_dot: self.live_dot,
            replay: self.replay,
            show_meta: self.show_meta,
            url: self.url@,
            tooltip: self.tooltip@,
        }
    }
}

/// Those of two texts that are not blank.
pub open spec fn said(a: Seq<char>, b: Seq<char>) -> Seq<Seq<char>> {
    (if text::trim(a).len() > 0 {
        seq![a]
    } else {
        Seq::empty()
    }) + (if text::trim(b).len() > 0 {
        seq![b]
    } else {
        Seq::empty()
    })
}

/// Whose pane it is.
pub open spec fn pane_name(slot: Slot, info: Option<&LiveStream>) -> Seq<char> {
    match slot.source {
        Source::Video(video) => video.user_name@,
        Source::Live => match info {
            Some(stream) => stream.display_name@,
            None => slot.channel@,
        },
    }
}

/// What is on: a stream's title and category, or a recording's title and when
/// it was.
pub open spec fn pane_about(
    slot: Slot,
    info: Option<&LiveStream>,
    now: Moment,
    shown: Option<Seq<char>>,
) -> Seq<Seq<char>> {
    match slot.source {
        Source::Video(video) => said(
            video.title@,
            channel_page::described(*video, now, shown),
        ),
        Source::Live => match info {
            Some(stream) => said(stream.title@, stream.game_name@),
            None => Seq::empty(),
        },
    }
}

/// The header of a pane, from what the lists say about its channel, and from
/// what is said of when a recording was made.
pub open spec fn header_of(
    slot: Slot,
    info: Option<&LiveStream>,
    now: Moment,
    shown: Option<Seq<char>>,
) -> HeaderView {
    let meta = match info {
        Some(stream) => browse::watching(*stream, now),
        None => Seq::empty(),
    };
    let about = pane_about(slot, info, now, shown);
    HeaderView {
        name: pane_name(slot, info),
        meta,
        about,
        about_line: text::joined(about, " · "@),
        live_dot: slot.state is Playing && slot.live(),
        replay: !slot.live(),
        show_meta: !(slot.state is Ended) && meta.len() > 0,
        url: match slot.source {
            Source::Video(video) => "https://twitch.tv/videos/"@ + video.id@,
            Source::Live => "https://twitch.tv/"@ + slot.channel@,
        },
        tooltip: match slot.source {
            Source::Video(_) => "Open this broadcast on twitch.tv"@,
            Source::Live => "Open twitch.tv/"@ + slot.channel@,
        },
    }
}

fn blank(s: &str) -> (r: bool)
    ensures
        r == (text::trim(s@).len() == 0),
{
    let chars = text::chars_of(s);
    text::trimmed(chars.as_slice()).len() == 0
}

fn said_of(a: &str, b: &str) -> (r: Vec<String>)
    ensures
        text::texts(r@) == said(a@, b@),
{
    let mut out: Vec<String> = Vec::new();
    if !blank(a) {
        out.push(a.to_owned());
    }
    if !blank(b) {
        out.push(b.to_owned());
    }
    assert(text::texts(out@) =~= said(a@, b@));
    out
}

/// The header of a pane, given what is said of when a recording was made.
pub fn chat_header_from(
    slot: &Slot,
    info: Option<&LiveStream>,
    now: &Moment,
    shown: &Option<String>,
) -> (r: Header)
    requires
        now.representable(),
    ensures
        r@ == header_of(*slot, info, *now, channel_page::read_text(*shown)),
{
    let meta = match info {
        Some(stream) => browse::watching_at(stream, now),
        None => String::new(),
    };
    let (name, about, url, tooltip) = match &slot.source {
        Source::Video(video) => {
            let line = channel_page::describe_from(&**video, now, shown);
            (
                video.user_name.clone(),
                said_of(video.title.as_str(), line.as_str()),
                text::concat2("https://twitch.tv/videos/", video.id.as_str()),
                "Open this broadcast on twitch.tv".to_owned(),
            )
        },
        Source::Live => {
            let (name, about) = match info {
                Some(stream) => (
                    stream.display_name.clone(),
                    said_of(stream.title.as_str(), stream.game_name.as_str()),
                ),
                None => (slot.channel.clone(), Vec::new()),
            };
            assert(info is None ==> text::texts(about@) =~= Seq::<Seq<char>>::empty());
            (
                name,
                about,
                text::concat2("https://twitch.tv/", slot.channel.as_str()),
                text::concat2("Open twitch.tv/", slot.channel.as_str()),
            )
        },
    };
    let about_line = text::join(about.as_slice(), " · ");
    let live = slot.is_live();
    let ended = match &slot.state {
        StreamState::Ended => true,
        _ => false,
    };
    let show_meta = !ended && !text::spells(text::chars_of(meta.as_str()).as_slice(), "");
    proof {
        reveal_strlit("");
        if meta@.len() == 0 {
            assert(meta@ =~= ""@);
        }
    }
    let header = Header {
        name,
        meta,
        about,
        about_line,
        live_dot: slot.is_playing() && live,
        replay: !live,
        show_meta,
        url,
        tooltip,
    };
    assert(header@ =~= header_of(*slot, info, *now, channel_page::read_text(*shown)));
    header
}

/// The header of a pane. When a recording was made is said by the local
/// calendar.
pub fn chat_header(slot: &Slot, info: Option<&LiveStream>, now: &Moment) -> (r: Header)
    requires
        now.datable(),
    ensures
        slot.source matches Source::Video(video) ==> exists|shown: Option<Seq<char>>|
            channel_page::may_say(video.created_at@, *now, shown) && r@ == #[trigger] header_of(
                *slot,
                info,
                *now,
                shown,
            ),
        slot.live() ==> r@ == header_of(*slot, info, *now, None),
{
    let shown = match &slot.source {
        Source::Video(video) => channel_page::when(video.created_at.as_str(), now),
        Source::Live => None,
    };
    chat_header_from(slot, info, now, &shown)
}

/// The name of one part of a pane. It holds the pane's key, never its
/// position: closing a pane moves every pane behind it.
pub fn pane_id(key: &str, role: &str) -> (r: String)
    ensures
        r@ == "pane-"@ + role@ + "-"@ + key@,
{
    let mut out = text::concat3("pane-", role, "-");
    out.append(key);
    out
}

/// A pane that has nothing to play knows since when, and one that has, or is
/// about to, knows of no such moment. Nothing else about it changes.
pub proof fn law_a_pane_knows_since_when_it_waits(slot: Slot, state: StreamState, now: Moment)
    ensures
        slot.moved(state, now).state == state,
        state is Offline || state is Ended || state is Failed ==> slot.moved(state, now).stalled_at
            == Some(now),
        state is Starting || state is Playing ==> slot.moved(state, now).stalled_at is None,
        slot.moved(state, now).key == slot.key,
        slot.moved(state, now).channel == slot.channel,
        slot.moved(state, now).source == slot.source,
        slot.moved(state, now).resume_at == slot.resume_at,
        slot.moved(state, now).quality_override == slot.quality_override,
        slot.moved(state, now).chat_hidden == slot.chat_hidden,
        slot.moved(state, now).has_chat == slot.has_chat,
        slot.moved(state, now).served == slot.served,
        slot.moved(state, now).hovered == slot.hovered,
{
}

/// A header shows the dot only over a broadcast that plays now, the numbers only
/// while there are any and the stream is not over, and says of a recording that
/// it is one. It names the pane by what is known best, and opens the page of
/// what is shown.
pub proof fn law_a_header_tells_live_from_replay(
    slot: Slot,
    info: Option<&LiveStream>,
    now: Moment,
    shown: Option<Seq<char>>,
)
    ensures
        ({
            let header = header_of(slot, info, now, shown);
            &&& header.live_dot <==> slot.source is Live && slot.state is Playing
            &&& header.replay <==> slot.source is Video
            &&& header.show_meta ==> info is Some && !(slot.state is Ended)
            &&& info is Some && !(slot.state is Ended) && header.meta.len() > 0 ==> header.show_meta
            &&& info is None ==> header.meta.len() == 0
            &&& slot.source is Live && info is None ==> header.name == slot.channel@
                && header.about.len() == 0
            &&& slot.source is Live && info is Some ==> header.name == info->0.display_name@
            &&& slot.source is Live ==> header.url == "https://twitch.tv/"@ + slot.channel@
            &&& slot.source matches Source::Video(video) ==> header.name == video.user_name@
                && header.url == "https://twitch.tv/videos/"@ + video.id@
        }),
{
}

/// What is on is said line by line, the title first; a blank line is not said.
pub proof fn law_what_is_on_is_said(slot: Slot, info: Option<&LiveStream>, now: Moment, shown: Option<
    Seq<char>,
>)
    ensures
        ({
            let about = header_of(slot, info, now, shown).about;
            &&& about.len() <= 2
            &&& forall|i: int| 0 <= i < about.len() ==> text::trim(#[trigger] about[i]).len() > 0
            &&& slot.source is Live && info is Some && text::trim(info->0.title@).len() > 0
                ==> about.len() > 0 && about[0] == info->0.title@
            &&& slot.source is Live && info is Some && text::trim(info->0.game_name@).len() > 0
                ==> about.len() > 0 && about.last() == info->0.game_name@
            &&& slot.source matches Source::Video(video) ==> (text::trim(video.title@).len() > 0
                ==> about.len() > 0 && about[0] == video.title@)
        }),
{
}

/// A pane that waits, was refused, is over or has failed says so in the words
/// that fit what is in it: a stream is asked for and ends by its channel's name,
/// a recording is opened and finishes; a failure is told in its own words.
pub proof fn law_a_stalled_pane_speaks_of_what_is_in_it(slot: Slot, reason: String)
    ensures
        slot.state is Starting && slot.source is Live ==> status_of(slot)->0.text
            == "starting stream…"@,
        slot.state is Starting && slot.source is Video ==> status_of(slot)->0.text
            == "opening the recording…"@,
        slot.state is Offline && slot.source is Live ==> status_of(slot)->0.text == slot.channel@
            + " is offline"@,
        slot.state is Offline && slot.source is Video ==> status_of(slot)->0.text
            == "this recording is no longer available"@,
        slot.state is Ended && slot.source is Live ==> status_of(slot)->0.text == slot.channel@
            + " ended the stream"@ && status_of(slot)->0.retry == Some("try again"@),
        slot.state is Ended && slot.source is Video ==> status_of(slot)->0.text == "finished"@
            && status_of(slot)->0.retry == Some("watch again"@),
        slot.state is Offline || slot.state is Failed ==> status_of(slot)->0.retry == Some(
            "try again"@,
        ),
        slot.state == StreamState::Failed(reason) ==> status_of(slot)->0.text == reason@,
        status_of(slot) is Some ==> (status_of(slot)->0.error <==> slot.state is Failed),
{
}

/// A pane goes by its channel's name, and a recording is told from the stream.
pub proof fn law_a_replay_is_called_one(slot: Slot)
    ensures
        text::begins(slot.called(), slot.channel@),
        slot.source is Live ==> slot.called().len() == slot.channel@.len(),
        slot.source is Video ==> slot.called().skip(slot.channel@.len() as int) == " (replay)"@,
{
    assert(slot.called().take(slot.channel@.len() as int) =~= slot.channel@);
    if slot.source is Video {
        assert(slot.called().skip(slot.channel@.len() as int) =~= " (replay)"@);
    }
}

/// On one line, what is on stands with a dot between its two parts, and with
/// none where there is one part only.
pub proof fn law_what_is_on_fits_one_line(
    slot: Slot,
    info: Option<&LiveStream>,
    now: Moment,
    shown: Option<Seq<char>>,
)
    ensures
        ({
            let header = header_of(slot, info, now, shown);
            let about = header.about;
            &&& about.len() == 0 ==> header.about_line.len() == 0
            &&& about.len() == 1 ==> header.about_line == about[0]
            &&& about.len() == 2 ==> header.about_line == about[0] + " · "@ + about[1]
        }),
{
    let about = header_of(slot, info, now, shown).about;
    let dot = " · "@;
    reveal_with_fuel(text::joined, 3);
    if about.len() == 1 {
        assert(text::joined(about, dot) =~= about[0]);
    } else if about.len() == 2 {
        assert(text::joined(about, dot) =~= about[0] + dot + about[1]);
    }
}

} // verus!
