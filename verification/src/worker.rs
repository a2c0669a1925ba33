//! The two workers around streamlink, as machines: one that serves a channel
//! on loopback, and one that resolves a recording.
//!
//! A machine is handed what the last piece of outside work came to, and
//! answers with what to tell the pane and what to do next. Whether the pane
//! has been closed meanwhile is asked between every two pieces of work.

use crate::playlist::{Playlist, PlaylistView};
use crate::quality;
use crate::streamlink;
use crate::streamlink::{Offer, StreamOptions};
use crate::text;
use vstd::prelude::*;
use vstd::string::*;

verus! {

/// Progress of one channel's stream.
#[derive(Debug, Clone, PartialEq, Eq)]
pub enum StreamEvent {
    /// Asking Twitch which qualities exist.
    Resolving,
    /// Ready to play. For a channel, `url` is the loopback relay; for a
    /// recording it is the playlist for the chosen quality, already read.
    Ready { url: String, quality: String, available: Vec<String>, playlist: Option<Playlist> },
    /// The channel is not broadcasting, or the recording is gone.
    Offline,
    Failed { reason: String },
}

/// A [`StreamEvent`] with its texts as sequences.
pub enum EventView {
    Resolving,
    Ready {
        url: Seq<char>,
        quality: Seq<char>,
        available: Seq<Seq<char>>,
        playlist: Option<PlaylistView>,
    },
    Offline,
    Failed { reason: Seq<char> },
}

impl View for StreamEvent {
    type V = EventView;

    open spec fn view(&self) -> EventView {
        match *self {
            StreamEvent::Resolving => EventView::Resolving,
            StreamEvent::Ready { url, quality, available, playlist } => EventView::Ready {
                url: url@,
                quality: quality@,
                available: text::texts(available@),
                playlist: match playlist {
                    Some(list) => Some(list@),
                    None => None,
                },
            },
            StreamEvent::Offline => EventView::Offline,
            StreamEvent::Failed { reason } => EventView::Failed { reason: reason@ },
        }
    }
}

/// What is told, where anything is.
pub open spec fn telling(event: Option<StreamEvent>) -> Option<EventView> {
    match event {
        Some(event) => Some(event@),
        None => None,
    }
}

/// What was asked for: by whom, for which pane, and with what token.
#[derive(Debug, Clone, PartialEq, Eq)]
pub struct Job {
    /// The channel's login, or the recording's id.
    pub subject: String,
    pub pane_height: u32,
    pub options: StreamOptions,
    /// The token that the environment supplies.
    pub environment: Option<String>,
}

/// A [`Job`] with its texts as sequences.
pub struct JobView {
    pub subject: Seq<char>,
    pub pane_height: u32,
    pub quality: Option<Seq<char>>,
    pub token: Option<Seq<char>>,
}

impl View for Job {
    type V = JobView;

    open spec fn view(&self) -> JobView {
        JobView {
            subject: self.subject@,
            pane_height: self.pane_height,
            quality: streamlink::maybe(self.options.quality),
            token: streamlink::token_of(
                streamlink::maybe(self.options.auth_token),
                streamlink::maybe(self.environment),
            ),
        }
    }
}

/// What the worker does next.
#[derive(Debug, Clone, PartialEq, Eq)]
pub enum Order {
    /// Run streamlink with these arguments and hand over what it printed.
    Probe(Vec<String>),
    /// Ask for an unused port.
    Reserve,
    /// Start streamlink with these arguments and leave it running.
    Serve(Vec<String>),
    /// Wait for the next line that streamlink prints.
    Read,
    /// Ask for the playlist at this address.
    Fetch(String),
    /// End streamlink, and be done.
    Kill,
    /// Be done.
    Retire,
}

/// An [`Order`] with its texts as sequences.
pub enum OrderView {
    Probe(Seq<Seq<char>>),
    Reserve,
    Serve(Seq<Seq<char>>),
    Read,
    Fetch(Seq<char>),
    Kill,
    Retire,
}

impl View for Order {
    type V = OrderView;

    open spec fn view(&self) -> OrderView {
        match *self {
            Order::Probe(args) => OrderView::Probe(text::texts(args@)),
            Order::Reserve => OrderView::Reserve,
            Order::Serve(args) => OrderView::Serve(text::texts(args@)),
            Order::Read => OrderView::Read,
            Order::Fetch(url) => OrderView::Fetch(url@),
            Order::Kill => OrderView::Kill,
            Order::Retire => OrderView::Retire,
        }
    }
}

/// Where the worker of a channel has got to.
#[derive(Debug, Clone, PartialEq, Eq)]
pub enum LivePhase {
    /// Looking for streamlink.
    Searching,
    /// Asking what the channel offers.
    Probing,
    /// Asking for a port.
    Reserving { quality: String, menu: Vec<String> },
    /// Starting the serving run.
    Starting { quality: String, menu: Vec<String>, port: u16 },
    /// Serving.
    Serving { quality: String, menu: Vec<String>, port: u16 },
    Over,
}

/// A [`LivePhase`] with its texts as sequences.
pub enum LivePhaseView {
    Searching,
    Probing,
    Reserving { quality: Seq<char>, menu: Seq<Seq<char>> },
    Starting { quality: Seq<char>, menu: Seq<Seq<char>>, port: u16 },
    Serving { quality: Seq<char>, menu: Seq<Seq<char>>, port: u16 },
    Over,
}

impl View for LivePhase {
    type V = LivePhaseView;

    open spec fn view(&self) -> LivePhaseView {
        match *self {
            LivePhase::Searching => LivePhaseView::Searching,
            LivePhase::Probing => LivePhaseView::Probing,
            LivePhase::Reserving { quality, menu } => LivePhaseView::Reserving {
                quality: quality@,
                menu: text::texts(menu@),
            },
            LivePhase::Starting { quality, menu, port } => LivePhaseView::Starting {
                quality: quality@,
                menu: text::texts(menu@),
                port,
            },
            LivePhase::Serving { quality, menu, port } => LivePhaseView::Serving {
                quality: quality@,
                menu: text::texts(menu@),
                port,
            },
            LivePhase::Over => LivePhaseView::Over,
        }
    }
}

/// What a piece of the channel worker's outside work came to.
pub enum LiveInput {
    /// Whether streamlink was found.
    Searched(bool),
    /// What the probe printed, or why it could not be run.
    Probed(Result<Vec<u8>, String>),
    /// The port, or why there is none.
    Reserved(Result<u16, String>),
    /// Whether the serving run started, or why not.
    Started(Result<(), String>),
    /// A line that the serving run printed.
    Line(String),
    /// The serving run ended, having printed these lines about its errors.
    Closed(Vec<String>),
}

/// Where the worker of a recording has got to.
#[derive(Debug, Clone, PartialEq, Eq)]
pub enum VideoPhase {
    Searching,
    Probing,
    /// Asking for the playlist of the chosen quality.
    Fetching { url: String, quality: String, menu: Vec<String> },
    Over,
}

/// A [`VideoPhase`] with its texts as sequences.
pub enum VideoPhaseView {
    Searching,
    Probing,
    Fetching { url: Seq<char>, quality: Seq<char>, menu: Seq<Seq<char>> },
    Over,
}

impl View for VideoPhase {
    type V = VideoPhaseView;

    open spec fn view(&self) -> VideoPhaseView {
        match *self {
            VideoPhase::Searching => VideoPhaseView::Searching,
            VideoPhase::Probing => VideoPhaseView::Probing,
            VideoPhase::Fetching { url, quality, menu } => VideoPhaseView::Fetching {
                url: url@,
                quality: quality@,
                menu: text::texts(menu@),
            },
            VideoPhase::Over => VideoPhaseView::Over,
        }
    }
}

/// What a piece of the recording worker's outside work came to.
pub enum VideoInput {
    Searched(bool),
    Probed(Result<Vec<u8>, String>),
    /// The playlist, or why there is none.
    Fetched(Result<Playlist, String>),
}

// ── What each piece of work leads to ─────────────────────────────────

/// A list of texts the way a developer reads it: each quoted, with what cannot
/// be printed escaped, in square brackets.
pub open spec fn debug_texts(list: Seq<Seq<char>>) -> Seq<char> {
    "["@ + text::joined(list.map_values(|s: Seq<char>| text::debug_text(s)), ", "@) + "]"@
}

fn debug_of(list: &[String]) -> (r: String)
    ensures
        r@ == debug_texts(text::texts(list@)),
{
    let mut all: Vec<String> = Vec::new();
    let mut i: usize = 0;
    while i < list.len()
        invariant
            i <= list@.len(),
            all@.len() == i,
            forall|k: int| 0 <= k < i ==> (#[trigger] all@[k])@ == text::debug_text(list@[k]@),
        decreases list.len() - i,
    {
        all.push(text::quoted(list[i].as_str()));
        i += 1;
    }
    assert(text::texts(all@) =~= text::texts(list@).map_values(
        |s: Seq<char>| text::debug_text(s),
    ));
    let said = text::join(all.as_slice(), ", ");
    let mut out = text::concat2("[", said.as_str());
    out.append("]");
    assert(out@ =~= debug_texts(text::texts(list@)));
    out
}

/// The names of a list of offers.
pub open spec fn offer_names(list: Seq<(Seq<char>, Seq<char>)>) -> Seq<Seq<char>> {
    Seq::new(list.len(), |i: int| list[i].0)
}

/// The playlist of the first offer of that name.
pub open spec fn offer_url(list: Seq<(Seq<char>, Seq<char>)>, name: Seq<char>) -> Option<Seq<char>>
    decreases list.len(),
{
    if list.len() == 0 {
        None
    } else if list[0].0 == name {
        Some(list[0].1)
    } else {
        offer_url(list.drop_first(), name)
    }
}

/// What a probe came to.
pub open spec fn probe_told(ran: Result<Vec<u8>, String>) -> Result<
    Seq<(Seq<char>, Seq<char>)>,
    Seq<char>,
> {
    match ran {
        Ok(bytes) => streamlink::streams_told(bytes@),
        Err(reason) => Err("could not run streamlink: "@ + reason@),
    }
}

/// The end of a run that found nothing it could play.
pub open spec fn nothing_to_play(names: Seq<Seq<char>>) -> EventView {
    EventView::Failed {
        reason: "no video qualities offered (got "@ + debug_texts(names) + ")"@,
    }
}

/// Whether streamlink was there to be asked.
pub open spec fn not_found() -> EventView {
    EventView::Failed { reason: "streamlink not found. Install it, or set STREAMLINK_PATH."@ }
}

/// Whether a probe's answer leads to playing `quality` with `menu` to switch
/// among.
pub open spec fn picks(
    job: JobView,
    names: Seq<Seq<char>>,
    quality: Seq<char>,
    menu: Seq<Seq<char>>,
) -> bool {
    &&& streamlink::is_menu(names, menu)
    &&& exists|q: quality::QualityView|
        #[trigger] streamlink::chosen(names, job.quality, job.pane_height as int, Some(q))
            && q.name == quality
}

/// The relay's address.
pub open spec fn relay(port: u16) -> Seq<char> {
    "http://127.0.0.1:"@ + text::decimal(port as nat) + "/"@
}

/// The lines that speak of an error.
pub open spec fn error_lines(lines: Seq<Seq<char>>) -> Seq<Seq<char>>
    decreases lines.len(),
{
    if lines.len() == 0 {
        Seq::empty()
    } else if text::occurs(lines.last(), "error"@) {
        error_lines(lines.drop_last()).push(lines.last())
    } else {
        error_lines(lines.drop_last())
    }
}

/// What the end of a serving run is told as.
pub open spec fn ending(lines: Seq<Seq<char>>) -> EventView {
    let said = text::joined(error_lines(lines), "; "@);
    let reason = if said.len() > 0 {
        said
    } else {
        "streamlink exited"@
    };
    if text::occurs(reason, "No playable streams"@) {
        EventView::Offline
    } else {
        EventView::Failed { reason }
    }
}

/// Whether a channel's worker, in `phase`, told what `input` came to, goes to
/// `next`, tells the pane `event`, and does `order`.
pub open spec fn live_turn(
    job: JobView,
    phase: LivePhaseView,
    input: LiveInput,
    stopped: bool,
    next: LivePhaseView,
    event: Option<EventView>,
    order: OrderView,
) -> bool {
    let target = "twitch.tv/"@ + job.subject;
    let over = next is Over && order is Retire;
    match (phase, input) {
        (LivePhaseView::Searching, LiveInput::Searched(found)) => if !found {
            over && event == Some(not_found())
        } else if stopped {
            over && event is None
        } else {
            next is Probing && event == Some(EventView::Resolving) && order == OrderView::Probe(
                streamlink::probe_args_of(target, job.token),
            )
        },
        (LivePhaseView::Probing, LiveInput::Probed(ran)) => match probe_told(ran) {
            Err(reason) => over && event == Some(EventView::Failed { reason }),
            Ok(list) => if stopped {
                over && event is None
            } else if list.len() == 0 {
                over && event == Some(EventView::Offline)
            } else if !quality::offers_any(offer_names(list)) {
                over && event == Some(nothing_to_play(offer_names(list)))
            } else {
                event is None && order is Reserve && (match next {
                    LivePhaseView::Reserving { quality, menu } => picks(
                        job,
                        offer_names(list),
                        quality,
                        menu,
                    ),
                    _ => false,
                })
            },
        },
        (
            LivePhaseView::Reserving { quality, menu },
            LiveInput::Reserved(Err(reason)),
        ) => over && event == Some(
            EventView::Failed { reason: "could not reserve a port: "@ + reason@ },
        ),
        (LivePhaseView::Reserving { quality, menu }, LiveInput::Reserved(Ok(port))) => next
            == (LivePhaseView::Starting { quality, menu, port }) && event is None && order
            == OrderView::Serve(streamlink::serve_args_of(port, target, job.token, quality)),
        (
            LivePhaseView::Starting { quality, menu, port },
            LiveInput::Started(Err(reason)),
        ) => over && event == Some(
            EventView::Failed { reason: "could not start streamlink: "@ + reason@ },
        ),
        (LivePhaseView::Starting { quality, menu, port }, LiveInput::Started(Ok(_))) => event
            is None && if stopped {
            next is Over && order is Kill
        } else {
            next == (LivePhaseView::Serving { quality, menu, port }) && order is Read
        },
        (LivePhaseView::Serving { quality, menu, port }, LiveInput::Line(line)) => if stopped {
            next is Over && event is None && order is Kill
        } else {
            next == phase && order is Read && event == (if text::occurs(
                line@,
                "Starting server, access with one of"@,
            ) {
                Some(
                    EventView::Ready { url: relay(port), quality, available: menu, playlist: None },
                )
            } else {
                None
            })
        },
        (LivePhaseView::Serving { quality, menu, port }, LiveInput::Closed(lines)) => if stopped {
            next is Over && event is None && order is Kill
        } else {
            over && event == Some(ending(text::texts(lines@)))
        },
        _ => over && event is None,
    }
}

/// Whether a recording's worker, in `phase`, told what `input` came to, goes
/// to `next`, tells the pane `event`, and does `order`.
pub open spec fn video_turn(
    job: JobView,
    phase: VideoPhaseView,
    input: VideoInput,
    stopped: bool,
    next: VideoPhaseView,
    event: Option<EventView>,
    order: OrderView,
) -> bool {
    let target = "twitch.tv/videos/"@ + job.subject;
    let over = next is Over && order is Retire;
    match (phase, input) {
        (VideoPhaseView::Searching, VideoInput::Searched(found)) => if !found {
            over && event == Some(not_found())
        } else if stopped {
            over && event is None
        } else {
            next is Probing && event == Some(EventView::Resolving) && order == OrderView::Probe(
                streamlink::probe_args_of(target, job.token),
            )
        },
        (VideoPhaseView::Probing, VideoInput::Probed(ran)) => match probe_told(ran) {
            Err(reason) => over && event == Some(EventView::Failed { reason }),
            Ok(list) => if stopped {
                over && event is None
            } else if list.len() == 0 {
                over && event == Some(EventView::Offline)
            } else if !quality::offers_any(offer_names(list)) {
                over && event == Some(nothing_to_play(offer_names(list)))
            } else {
                event is None && (match next {
                    VideoPhaseView::Fetching { url, quality, menu } => picks(
                        job,
                        offer_names(list),
                        quality,
                        menu,
                    ) && offer_url(list, quality) == Some(url) && order == OrderView::Fetch(url),
                    _ => false,
                })
            },
        },
        (
            VideoPhaseView::Fetching { url, quality, menu },
            VideoInput::Fetched(Err(reason)),
        ) => over && event == Some(
            EventView::Failed { reason: "could not read the recording's playlist: "@ + reason@ },
        ),
        (VideoPhaseView::Fetching { url, quality, menu }, VideoInput::Fetched(Ok(list))) => over
            && event == (if stopped {
            None
        } else {
            Some(EventView::Ready { url, quality, available: menu, playlist: Some(list@) })
        }),
        _ => over && event is None,
    }
}

fn failed(a: &str, b: &str) -> (r: Option<StreamEvent>)
    ensures
        telling(r) == Some(EventView::Failed { reason: a@ + b@ }),
{
    Some(StreamEvent::Failed { reason: text::concat2(a, b) })
}

fn search_failed() -> (r: Option<StreamEvent>)
    ensures
        telling(r) == Some(not_found()),
{
    Some(
        StreamEvent::Failed {
            reason: "streamlink not found. Install it, or set STREAMLINK_PATH.".to_owned(),
        },
    )
}

fn names_of(list: &Vec<Offer>) -> (r: Vec<String>)
    ensures
        text::texts(r@) == offer_names(streamlink::offers(list@)),
{
    let mut out: Vec<String> = Vec::new();
    let mut i: usize = 0;
    while i < list.len()
        invariant
            i <= list@.len(),
            out@.len() == i,
            forall|k: int| 0 <= k < i ==> (#[trigger] out@[k])@ == list@[k].name@,
        decreases list.len() - i,
    {
        out.push(list[i].name.clone());
        i += 1;
    }
    assert(text::texts(out@) =~= offer_names(streamlink::offers(list@)));
    out
}

fn url_of(list: &Vec<Offer>, name: &str) -> (r: Option<String>)
    ensures
        streamlink::maybe(r) == offer_url(streamlink::offers(list@), name@),
{
    let ghost all = streamlink::offers(list@);
    let mut i: usize = 0;
    assert(all.skip(0) =~= all);
    while i < list.len()
        invariant
            all == streamlink::offers(list@),
            i <= list@.len(),
            offer_url(all.skip(i as int), name@) == offer_url(all, name@),
        decreases list.len() - i,
    {
        assert(all.skip(i as int)[0] == all[i as int]);
        assert(all.skip(i as int).drop_first() =~= all.skip(i + 1));
        if text::same(list[i].name.as_str(), name) {
            return Some(list[i].url.clone());
        }
        i += 1;
    }
    None
}

proof fn lemma_offer_has_url(list: Seq<(Seq<char>, Seq<char>)>, name: Seq<char>)
    requires
        offer_names(list).contains(name),
    ensures
        offer_url(list, name) is Some,
    decreases list.len(),
{
    let i = choose|i: int| 0 <= i < offer_names(list).len() && offer_names(list)[i] == name;
    if list[0].0 != name {
        let rest = list.drop_first();
        assert(offer_names(rest)[i - 1] == name);
        assert(offer_names(rest).contains(name));
        lemma_offer_has_url(rest, name);
    }
}

fn probe_answer(ran: Result<Vec<u8>, String>) -> (r: Result<Vec<Offer>, String>)
    ensures
        streamlink::told(r) == probe_told(ran),
{
    match ran {
        Ok(bytes) => streamlink::streams_from_json(bytes.as_slice()),
        Err(reason) => Err(text::concat2("could not run streamlink: ", reason.as_str())),
    }
}

fn nothing_offered(names: &[String]) -> (r: Option<StreamEvent>)
    ensures
        telling(r) == Some(nothing_to_play(text::texts(names@))),
{
    let mut reason = "no video qualities offered (got ".to_owned();
    let list = debug_of(names);
    reason.append(list.as_str());
    reason.append(")");
    Some(StreamEvent::Failed { reason })
}

fn why_ended(lines: &Vec<String>) -> (r: StreamEvent)
    ensures
        r@ == ending(text::texts(lines@)),
{
    let mut kept: Vec<String> = Vec::new();
    let ghost all = text::texts(lines@);
    let mut i: usize = 0;
    assert(text::texts(kept@) =~= error_lines(all.take(0)));
    while i < lines.len()
        invariant
            all == text::texts(lines@),
            i <= lines@.len(),
            text::texts(kept@) == error_lines(all.take(i as int)),
        decreases lines.len() - i,
    {
        let ghost held = kept@;
        proof {
            assert(all.take(i + 1).drop_last() =~= all.take(i as int));
            assert(all.take(i + 1).last() == lines@[i as int]@);
        }
        if text::mentions(lines[i].as_str(), "error") {
            kept.push(lines[i].clone());
            assert(text::texts(kept@) =~= text::texts(held).push(lines@[i as int]@));
        }
        i += 1;
    }
    assert(all.take(i as int) =~= all);
    let said = text::join(kept.as_slice(), "; ");
    let reason = if said.as_str().is_empty() {
        "streamlink exited".to_owned()
    } else {
        said
    };
    if text::mentions(reason.as_str(), "No playable streams") {
        StreamEvent::Offline
    } else {
        StreamEvent::Failed { reason }
    }
}

/// What a worker does with what a piece of outside work came to.
pub struct LiveTurn {
    pub next: LivePhase,
    pub event: Option<StreamEvent>,
    pub order: Order,
}

/// What a worker does with what a piece of outside work came to.
pub struct VideoTurn {
    pub next: VideoPhase,
    pub event: Option<StreamEvent>,
    pub order: Order,
}

fn live_over(event: Option<StreamEvent>) -> (r: LiveTurn)
    ensures
        r.next@ is Over,
        r.order@ is Retire,
        r.event == event,
{
    LiveTurn { next: LivePhase::Over, event, order: Order::Retire }
}

fn live_kill() -> (r: LiveTurn)
    ensures
        r.next@ is Over,
        r.order@ is Kill,
        r.event is None,
{
    LiveTurn { next: LivePhase::Over, event: None, order: Order::Kill }
}

fn video_over(event: Option<StreamEvent>) -> (r: VideoTurn)
    ensures
        r.next@ is Over,
        r.order@ is Retire,
        r.event == event,
{
    VideoTurn { next: VideoPhase::Over, event, order: Order::Retire }
}

/// The channel worker after its probe.
fn after_live_probe(job: &Job, ran: Result<Vec<u8>, String>, stopped: bool) -> (r: LiveTurn)
    ensures
        live_turn(
            job@,
            LivePhaseView::Probing,
            LiveInput::Probed(ran),
            stopped,
            r.next@,
            telling(r.event),
            r.order@,
        ),
{
    let list = match probe_answer(ran) {
        Ok(list) => list,
        Err(reason) => {
            return live_over(Some(StreamEvent::Failed { reason }));
        },
    };
    let ghost offers = streamlink::offers(list@);
    assert(probe_told(ran) == Ok::<Seq<(Seq<char>, Seq<char>)>, Seq<char>>(offers));
    if stopped {
        return live_over(None);
    }
    if list.len() == 0 {
        return live_over(Some(StreamEvent::Offline));
    }
    let names = names_of(&list);
    let picked = streamlink::choose_quality(names.as_slice(), &job.options, job.pane_height);
    proof {
        streamlink::law_something_is_chosen(
            offer_names(offers),
            job@.quality,
            job@.pane_height as int,
            quality::seen(picked),
        );
    }
    match picked {
        Some(q) => {
            let menu = streamlink::playable_names(names.as_slice());
            proof {
                assert(streamlink::chosen(
                    offer_names(offers),
                    job@.quality,
                    job@.pane_height as int,
                    Some(q@),
                ));
                assert(picks(job@, offer_names(offers), q.name@, text::texts(menu@)));
            }
            LiveTurn {
                next: LivePhase::Reserving { quality: q.name, menu },
                event: None,
                order: Order::Reserve,
            }
        },
        None => live_over(nothing_offered(names.as_slice())),
    }
}

/// The recording worker after its probe.
fn after_video_probe(job: &Job, ran: Result<Vec<u8>, String>, stopped: bool) -> (r: VideoTurn)
    ensures
        video_turn(
            job@,
            VideoPhaseView::Probing,
            VideoInput::Probed(ran),
            stopped,
            r.next@,
            telling(r.event),
            r.order@,
        ),
{
    let list = match probe_answer(ran) {
        Ok(list) => list,
        Err(reason) => {
            return video_over(Some(StreamEvent::Failed { reason }));
        },
    };
    let ghost offers = streamlink::offers(list@);
    assert(probe_told(ran) == Ok::<Seq<(Seq<char>, Seq<char>)>, Seq<char>>(offers));
    if stopped {
        return video_over(None);
    }
    if list.len() == 0 {
        return video_over(Some(StreamEvent::Offline));
    }
    let names = names_of(&list);
    let picked = streamlink::choose_quality(names.as_slice(), &job.options, job.pane_height);
    proof {
        streamlink::law_something_is_chosen(
            offer_names(offers),
            job@.quality,
            job@.pane_height as int,
            quality::seen(picked),
        );
    }
    match picked {
        Some(q) => {
            let menu = streamlink::playable_names(names.as_slice());
            let found = url_of(&list, q.name.as_str());
            proof {
                assert(streamlink::chosen(
                    offer_names(offers),
                    job@.quality,
                    job@.pane_height as int,
                    Some(q@),
                ));
                assert(picks(job@, offer_names(offers), q.name@, text::texts(menu@)));
                lemma_offer_has_url(offers, q.name@);
            }
            match found {
                Some(url) => VideoTurn {
                    next: VideoPhase::Fetching { url: url.clone(), quality: q.name, menu },
                    event: None,
                    order: Order::Fetch(url),
                },
                None => video_over(None),
            }
        },
        None => video_over(nothing_offered(names.as_slice())),
    }
}

/// A channel's worker, told what its last piece of outside work came to.
pub fn live_step(job: &Job, phase: LivePhase, input: LiveInput, stopped: bool) -> (r: LiveTurn)
    ensures
        live_turn(job@, phase@, input, stopped, r.next@, telling(r.event), r.order@),
{
    match (phase, input) {
        (LivePhase::Searching, LiveInput::Searched(found)) => {
            if !found {
                return live_over(search_failed());
            }
            if stopped {
                return live_over(None);
            }
            let target = streamlink::channel_target(job.subject.as_str());
            let args = streamlink::probe_args(target.as_str(), &job.options, &job.environment);
            LiveTurn {
                next: LivePhase::Probing,
                event: Some(StreamEvent::Resolving),
                order: Order::Probe(args),
            }
        },
        (LivePhase::Probing, LiveInput::Probed(ran)) => after_live_probe(job, ran, stopped),
        (LivePhase::Reserving { quality, menu }, LiveInput::Reserved(port)) => {
            match port {
                Ok(port) => {
                    let target = streamlink::channel_target(job.subject.as_str());
                    let args = streamlink::serve_args(
                        port,
                        target.as_str(),
                        &job.options,
                        &job.environment,
                        quality.as_str(),
                    );
                    LiveTurn {
                        next: LivePhase::Starting { quality, menu, port },
                        event: None,
                        order: Order::Serve(args),
                    }
                },
                Err(reason) => live_over(failed("could not reserve a port: ", reason.as_str())),
            }
        },
        (LivePhase::Starting { quality, menu, port }, LiveInput::Started(started)) => {
            match started {
                Ok(_) => {
                    if stopped {
                        return live_kill();
                    }
                    LiveTurn {
                        next: LivePhase::Serving { quality, menu, port },
                        event: None,
                        order: Order::Read,
                    }
                },
                Err(reason) => live_over(failed("could not start streamlink: ", reason.as_str())),
            }
        },
        (LivePhase::Serving { quality, menu, port }, LiveInput::Line(line)) => {
            if stopped {
                return live_kill();
            }
            let event = if text::mentions(line.as_str(), "Starting server, access with one of") {
                let mut url = "http://127.0.0.1:".to_owned();
                text::push_decimal(&mut url, port as u64);
                url.append("/");
                let available = copied(&menu);
                Some(
                    StreamEvent::Ready { url, quality: quality.clone(), available, playlist: None },
                )
            } else {
                None
            };
            LiveTurn {
                next: LivePhase::Serving { quality, menu, port },
                event,
                order: Order::Read,
            }
        },
        (LivePhase::Serving { .. }, LiveInput::Closed(lines)) => {
            if stopped {
                return live_kill();
            }
            live_over(Some(why_ended(&lines)))
        },
        _ => live_over(None),
    }
}

fn copied(list: &Vec<String>) -> (r: Vec<String>)
    ensures
        text::texts(r@) == text::texts(list@),
{
    let mut out: Vec<String> = Vec::new();
    let mut i: usize = 0;
    while i < list.len()
        invariant
            i <= list@.len(),
            out@.len() == i,
            forall|k: int| 0 <= k < i ==> (#[trigger] out@[k])@ == list@[k]@,
        decreases list.len() - i,
    {
        out.push(list[i].clone());
        i += 1;
    }
    assert(text::texts(out@) =~= text::texts(list@));
    out
}

/// A recording's worker, told what its last piece of outside work came to.
pub fn video_step(job: &Job, phase: VideoPhase, input: VideoInput, stopped: bool) -> (r: VideoTurn)
    ensures
        video_turn(job@, phase@, input, stopped, r.next@, telling(r.event), r.order@),
{
    match (phase, input) {
        (VideoPhase::Searching, VideoInput::Searched(found)) => {
            if !found {
                return video_over(search_failed());
            }
            if stopped {
                return video_over(None);
            }
            let target = streamlink::video_target(job.subject.as_str());
            let args = streamlink::probe_args(target.as_str(), &job.options, &job.environment);
            VideoTurn {
                next: VideoPhase::Probing,
                event: Some(StreamEvent::Resolving),
                order: Order::Probe(args),
            }
        },
        (VideoPhase::Probing, VideoInput::Probed(ran)) => after_video_probe(job, ran, stopped),
        (VideoPhase::Fetching { url, quality, menu }, VideoInput::Fetched(fetched)) => {
            match fetched {
                Ok(list) => {
                    if stopped {
                        return video_over(None);
                    }
                    video_over(
                        Some(
                            StreamEvent::Ready {
                                url,
                                quality,
                                available: menu,
                                playlist: Some(list),
                            },
                        ),
                    )
                },
                Err(reason) => video_over(
                    failed("could not read the recording's playlist: ", reason.as_str()),
                ),
            }
        },
        _ => video_over(None),
    }
}

// ── Laws ─────────────────────────────────────────────────────────────

/// A channel's worker whose pane has been closed starts nothing new that would
/// be seen: it asks Twitch nothing more, goes on to no serving run, and never
/// says that it is resolving or ready. A run that is already up is ended.
pub proof fn law_a_closed_pane_is_served_nothing(
    job: JobView,
    phase: LivePhaseView,
    input: LiveInput,
    next: LivePhaseView,
    event: Option<EventView>,
    order: OrderView,
)
    requires
        live_turn(job, phase, input, true, next, event, order),
    ensures
        !(next is Probing) && !(next is Serving),
        !(order is Probe) && !(order is Read),
        !(event is Some && (event->Some_0 is Resolving || event->Some_0 is Ready)),
        phase is Serving && (input is Line || input is Closed) ==> order is Kill,
        phase is Starting && input is Started && input->Started_0 is Ok ==> order is Kill,
{
}

/// The same of a recording's worker.
pub proof fn law_a_closed_pane_is_resolved_nothing(
    job: JobView,
    phase: VideoPhaseView,
    input: VideoInput,
    next: VideoPhaseView,
    event: Option<EventView>,
    order: OrderView,
)
    requires
        video_turn(job, phase, input, true, next, event, order),
    ensures
        next is Over && order is Retire,
        !(event is Some && (event->Some_0 is Resolving || event->Some_0 is Ready)),
{
}

/// A worker is done exactly when it has nothing more to do, and what failed or
/// found nothing is told only by a worker that is done with it.
pub proof fn law_a_worker_ends_once(
    job: JobView,
    phase: LivePhaseView,
    input: LiveInput,
    stopped: bool,
    next: LivePhaseView,
    event: Option<EventView>,
    order: OrderView,
)
    requires
        live_turn(job, phase, input, stopped, next, event, order),
    ensures
        next is Over <==> (order is Kill || order is Retire),
        event is Some && (event->Some_0 is Failed || event->Some_0 is Offline) ==> next is Over,
        phase is Over ==> next is Over && event is None && order is Retire,
{
}

/// A recording that is ready is handed over with its playlist, and a channel
/// without one.
pub proof fn law_only_a_recording_comes_with_a_playlist(
    job: JobView,
    phase: LivePhaseView,
    input: LiveInput,
    next: LivePhaseView,
    video_phase: VideoPhaseView,
    video_input: VideoInput,
    video_next: VideoPhaseView,
    stopped: bool,
    event: Option<EventView>,
    video_event: Option<EventView>,
    order: OrderView,
    video_order: OrderView,
)
    requires
        live_turn(job, phase, input, stopped, next, event, order),
        video_turn(
            job,
            video_phase,
            video_input,
            stopped,
            video_next,
            video_event,
            video_order,
        ),
    ensures
        event matches Some(EventView::Ready { playlist, .. }) ==> playlist is None,
        video_event matches Some(EventView::Ready { playlist, .. }) ==> playlist is Some,
{
}

/// From streamlink being found to the relay being up, a channel's worker plays
/// one and the same thing: it asks about its own channel, reserves a port for
/// the quality that suits, serves that quality there, and says that it is ready
/// with exactly that quality, at that port on this machine.
pub proof fn law_what_was_chosen_is_what_is_played(
    job: JobView,
    quality: Seq<char>,
    menu: Seq<Seq<char>>,
    port: u16,
    input: LiveInput,
    next: LivePhaseView,
    event: Option<EventView>,
    order: OrderView,
)
    ensures
        live_turn(job, LivePhaseView::Searching, LiveInput::Searched(true), false, next, event, order)
            ==> event == Some(EventView::Resolving) && order is Probe && order->Probe_0.last()
            == "twitch.tv/"@ + job.subject && order->Probe_0[0] == "--json"@ && next is Probing,
        live_turn(
            job,
            LivePhaseView::Reserving { quality, menu },
            LiveInput::Reserved(Ok(port)),
            false,
            next,
            event,
            order,
        ) ==> next == (LivePhaseView::Starting { quality, menu, port }) && order is Serve
            && order->Serve_0.last() == quality && order->Serve_0[order->Serve_0.len() - 2]
            == "twitch.tv/"@ + job.subject && order->Serve_0[2] == text::decimal(port as nat)
            && event is None,
        live_turn(
            job,
            LivePhaseView::Starting { quality, menu, port },
            LiveInput::Started(Ok(())),
            false,
            next,
            event,
            order,
        ) ==> next == (LivePhaseView::Serving { quality, menu, port }) && order is Read && event
            is None,
        live_turn(
            job,
            LivePhaseView::Serving { quality, menu, port },
            input,
            false,
            next,
            event,
            order,
        ) && input is Line && text::occurs(
            input->Line_0@,
            "Starting server, access with one of"@,
        ) ==> next == (LivePhaseView::Serving { quality, menu, port }) && order is Read && event
            == Some(
            EventView::Ready {
                url: "http://127.0.0.1:"@ + text::decimal(port as nat) + "/"@,
                quality,
                available: menu,
                playlist: None,
            },
        ),
        live_turn(
            job,
            LivePhaseView::Serving { quality, menu, port },
            input,
            false,
            next,
            event,
            order,
        ) && input is Line && !text::occurs(
            input->Line_0@,
            "Starting server, access with one of"@,
        ) ==> next == (LivePhaseView::Serving { quality, menu, port }) && order is Read && event
            is None,
{
}

/// What a probe comes to, for a channel and for a recording alike: a run that
/// failed is told, nothing on offer is offline, nothing playable is a failure,
/// and otherwise a quality that is on offer goes on, with a menu of all that
/// are.
pub proof fn law_a_probe_leads_to_what_is_on_offer(
    job: JobView,
    ran: Result<Vec<u8>, String>,
    next: LivePhaseView,
    event: Option<EventView>,
    order: OrderView,
    video_next: VideoPhaseView,
    video_event: Option<EventView>,
    video_order: OrderView,
)
    requires
        live_turn(
            job,
            LivePhaseView::Probing,
            LiveInput::Probed(ran),
            false,
            next,
            event,
            order,
        ),
        video_turn(
            job,
            VideoPhaseView::Probing,
            VideoInput::Probed(ran),
            false,
            video_next,
            video_event,
            video_order,
        ),
    ensures
        ran matches Err(reason) ==> event == Some(
            EventView::Failed { reason: "could not run streamlink: "@ + reason@ },
        ) && video_event == event,
        ran matches Ok(bytes) ==> match streamlink::streams_told(bytes@) {
            Err(reason) => event == Some(EventView::Failed { reason }) && video_event == event,
            Ok(list) => {
                &&& list.len() == 0 ==> event == Some(EventView::Offline) && video_event == event
                &&& next is Reserving ==> order is Reserve && event is None && exists|i: int|
                    0 <= i < list.len() && (#[trigger] list[i]).0 == next->Reserving_quality
                        && quality::named(list[i].0) is Some
                &&& video_next is Fetching ==> video_event is None && video_order
                    == OrderView::Fetch(video_next->url) && exists|i: int|
                    0 <= i < list.len() && (#[trigger] list[i]).0 == video_next->Fetching_quality
                        && list[i].1 == video_next->url
                &&& (exists|i: int|
                    0 <= i < list.len() && quality::named((#[trigger] list[i]).0) is Some) ==> next
                    is Reserving && video_next is Fetching
            },
        },
        next is Reserving || (next is Over && event is Some),
        video_next is Fetching || (video_next is Over && video_event is Some),
{
    if let Ok(bytes) = ran {
        if let Ok(list) = streamlink::streams_told(bytes@) {
            let names = offer_names(list);
            if exists|i: int| 0 <= i < list.len() && quality::named((#[trigger] list[i]).0) is Some {
                let i = choose|i: int|
                    0 <= i < list.len() && quality::named((#[trigger] list[i]).0) is Some;
                assert(names[i] == list[i].0);
                assert(quality::offers_any(names));
            }
            if next is Reserving {
                lemma_picked_is_offered(job, list, next->Reserving_quality, next->Reserving_menu);
            }
            if video_next is Fetching {
                lemma_offer_url(list, video_next->Fetching_quality);
            }
        }
    }
}

proof fn lemma_picked_is_offered(
    job: JobView,
    list: Seq<(Seq<char>, Seq<char>)>,
    quality: Seq<char>,
    menu: Seq<Seq<char>>,
)
    requires
        picks(job, offer_names(list), quality, menu),
    ensures
        exists|i: int|
            0 <= i < list.len() && (#[trigger] list[i]).0 == quality && quality::named(list[i].0)
                is Some,
{
    let names = offer_names(list);
    let q = choose|q: quality::QualityView|
        #[trigger] streamlink::chosen(names, job.quality, job.pane_height as int, Some(q))
            && q.name == quality;
    if let Some(preference) = job.quality {
        quality::law_a_preference_never_fails(
            names,
            preference,
            job.pane_height as int,
            Some(q),
        );
    }
    assert(quality::offers(names, q));
    let i = choose|i: int|
        0 <= i < names.len() && quality::named(#[trigger] names[i]) == Some(q);
    assert(names[i] == list[i].0);
}

proof fn lemma_offer_url(list: Seq<(Seq<char>, Seq<char>)>, name: Seq<char>)
    ensures
        offer_url(list, name) matches Some(url) ==> exists|i: int|
            0 <= i < list.len() && (#[trigger] list[i]).0 == name && list[i].1 == url,
    decreases list.len(),
{
    if list.len() > 0 && list[0].0 != name {
        let rest = list.drop_first();
        lemma_offer_url(rest, name);
        if let Some(url) = offer_url(rest, name) {
            let i = choose|i: int|
                0 <= i < rest.len() && (#[trigger] rest[i]).0 == name && rest[i].1 == url;
            assert(list[i + 1] == rest[i]);
        }
    }
}

/// A recording is ready with the playlist that was read, at the address and in
/// the quality it was asked for; a playlist that could not be read is told.
pub proof fn law_a_recording_is_ready_with_what_was_read(
    job: JobView,
    url: Seq<char>,
    quality: Seq<char>,
    menu: Seq<Seq<char>>,
    answer: Result<Playlist, String>,
    next: VideoPhaseView,
    event: Option<EventView>,
    order: OrderView,
)
    requires
        video_turn(
            job,
            VideoPhaseView::Fetching { url, quality, menu },
            VideoInput::Fetched(answer),
            false,
            next,
            event,
            order,
        ),
    ensures
        next is Over,
        answer matches Ok(list) ==> event == Some(
            EventView::Ready { url, quality, available: menu, playlist: Some(list@) },
        ),
        answer matches Err(reason) ==> event == Some(
            EventView::Failed { reason: "could not read the recording's playlist: "@ + reason@ },
        ),
{
}

/// What ends a serving run is told by the lines that speak of an error, all of
/// them and no others; a channel with nothing to play is offline.
pub proof fn law_an_ending_is_told_by_its_errors(lines: Seq<Seq<char>>, line: Seq<char>)
    ensures
        error_lines(lines).contains(line) <==> lines.contains(line) && text::occurs(
            line,
            "error"@,
        ),
        ending(lines) is Offline || ending(lines) is Failed,
        error_lines(lines).len() == 0 ==> ending(lines) == (EventView::Failed {
            reason: "streamlink exited"@,
        }),
        error_lines(lines).len() == 1 && lines.contains(line) && text::occurs(line, "error"@)
            ==> if text::occurs(line, "No playable streams"@) {
            ending(lines) is Offline
        } else {
            ending(lines) == (EventView::Failed { reason: line })
        },
    decreases lines.len(),
{
    if lines.len() > 0 {
        let rest = lines.drop_last();
        lemma_error_lines(lines, line);
    }
    let all = error_lines(lines);
    if all.len() == 0 {
        assert(all =~= Seq::<Seq<char>>::empty());
        lemma_no_playable();
    }
    lemma_error_lines(lines, line);
    if all.len() == 1 && lines.contains(line) && text::occurs(line, "error"@) {
        let k = choose|k: int| 0 <= k < all.len() && all[k] == line;
        assert(all[0] == line);
        reveal_strlit("error");
        if line.len() == 0 {
            let i = choose|i: int| 0 <= i <= line.len() && #[trigger] text::begins(
                line.skip(i),
                "error"@,
            );
            assert(false);
        }
    }
}

proof fn lemma_no_playable()
    ensures
        !text::occurs("streamlink exited"@, "No playable streams"@),
{
    reveal_strlit("streamlink exited");
    reveal_strlit("No playable streams");
    assert("streamlink exited"@.len() < "No playable streams"@.len());
}

proof fn lemma_error_lines(lines: Seq<Seq<char>>, line: Seq<char>)
    ensures
        error_lines(lines).contains(line) <==> lines.contains(line) && text::occurs(
            line,
            "error"@,
        ),
    decreases lines.len(),
{
    if lines.len() > 0 {
        let rest = lines.drop_last();
        lemma_error_lines(rest, line);
        let before = error_lines(rest);
        let all = error_lines(lines);
        if lines.contains(line) && text::occurs(line, "error"@) {
            let k = choose|k: int| 0 <= k < lines.len() && lines[k] == line;
            if k < rest.len() {
                assert(rest[k] == line);
                let j = choose|j: int| 0 <= j < before.len() && before[j] == line;
                assert(all[j] == line);
            } else {
                assert(all.last() == line);
            }
        }
        if all.contains(line) {
            let j = choose|j: int| 0 <= j < all.len() && all[j] == line;
            if j < before.len() {
                assert(before[j] == line);
                let k = choose|k: int| 0 <= k < rest.len() && rest[k] == line;
                assert(lines[k] == line);
            } else {
                assert(lines[lines.len() - 1] == line);
            }
        }
    }
}

/// Every line that speaks of an error is told when a run ends, in the order in
/// which they came, with a semicolon between one and the next.
pub proof fn law_errors_are_told_one_after_another(lines: Seq<Seq<char>>, a: Seq<char>, b: Seq<char>)
    requires
        error_lines(lines) == seq![a, b],
    ensures
        text::occurs(a + "; "@ + b, "No playable streams"@) ==> ending(lines) is Offline,
        !text::occurs(a + "; "@ + b, "No playable streams"@) ==> ending(lines)
            == (EventView::Failed { reason: a + "; "@ + b }),
{
    reveal_with_fuel(text::joined, 3);
    reveal_strlit("; ");
    assert(text::joined(seq![a, b], "; "@) =~= a + "; "@ + b);
}

/// What streamlink says is kept in the order in which it said it.
pub proof fn law_error_lines_keep_their_order(lines: Seq<Seq<char>>, line: Seq<char>)
    ensures
        text::occurs(line, "error"@) ==> error_lines(lines.push(line)) == error_lines(lines).push(
            line,
        ),
        !text::occurs(line, "error"@) ==> error_lines(lines.push(line)) == error_lines(lines),
{
    assert(lines.push(line).drop_last() =~= lines);
}

/// Each way in which a stream cannot be served is told by its own words and the
/// reason that came with it, and each ends the worker.
pub proof fn law_a_stream_that_cannot_be_served_says_why(
    job: JobView,
    quality: Seq<char>,
    menu: Seq<Seq<char>>,
    port: u16,
    reason: String,
    stopped: bool,
    next: LivePhaseView,
    event: Option<EventView>,
    order: OrderView,
    names: Seq<Seq<char>>,
)
    ensures
        live_turn(
            job,
            LivePhaseView::Reserving { quality, menu },
            LiveInput::Reserved(Err(reason)),
            stopped,
            next,
            event,
            order,
        ) ==> next is Over && event == Some(
            EventView::Failed { reason: "could not reserve a port: "@ + reason@ },
        ),
        live_turn(
            job,
            LivePhaseView::Starting { quality, menu, port },
            LiveInput::Started(Err(reason)),
            stopped,
            next,
            event,
            order,
        ) ==> next is Over && event == Some(
            EventView::Failed { reason: "could not start streamlink: "@ + reason@ },
        ),
        not_found() == (EventView::Failed {
            reason: "streamlink not found. Install it, or set STREAMLINK_PATH."@,
        }),
        nothing_to_play(names) == (EventView::Failed {
            reason: "no video qualities offered (got "@ + debug_texts(names) + ")"@,
        }),
{
}

/// A channel is looked for at its own address and a recording at its own, with
/// the token that was given; a search that cannot be run says why.
pub proof fn law_what_is_looked_for_is_what_was_asked(
    job: JobView,
    reason: String,
    next: LivePhaseView,
    then: VideoPhaseView,
    event: Option<EventView>,
    order: OrderView,
)
    ensures
        live_turn(
            job,
            LivePhaseView::Searching,
            LiveInput::Searched(true),
            false,
            next,
            event,
            order,
        ) ==> order == OrderView::Probe(
            streamlink::probe_args_of("twitch.tv/"@ + job.subject, job.token),
        ),
        video_turn(
            job,
            VideoPhaseView::Searching,
            VideoInput::Searched(true),
            false,
            then,
            event,
            order,
        ) ==> order == OrderView::Probe(
            streamlink::probe_args_of("twitch.tv/videos/"@ + job.subject, job.token),
        ),
        live_turn(
            job,
            LivePhaseView::Probing,
            LiveInput::Probed(Err(reason)),
            false,
            next,
            event,
            order,
        ) ==> next is Over && event == Some(
            EventView::Failed { reason: "could not run streamlink: "@ + reason@ },
        ),
        video_turn(
            job,
            VideoPhaseView::Probing,
            VideoInput::Probed(Err(reason)),
            false,
            then,
            event,
            order,
        ) ==> then is Over && event == Some(
            EventView::Failed { reason: "could not run streamlink: "@ + reason@ },
        ),
{
}

/// A stream is fetched from this machine alone, at the port that was reserved.
pub proof fn law_a_stream_is_relayed_on_this_machine(port: u16)
    ensures
        text::begins(relay(port), "http://127.0.0.1:"@),
        relay(port).skip("http://127.0.0.1:"@.len() as int) == text::decimal(port as nat) + "/"@,
{
    let front = "http://127.0.0.1:"@;
    assert(relay(port).take(front.len() as int) =~= front);
    assert(relay(port).skip(front.len() as int) =~= text::decimal(port as nat) + "/"@);
}

/// A list of names is told in brackets, each name quoted, with a comma between
/// one and the next.
pub proof fn law_names_are_told_in_brackets(a: Seq<char>, b: Seq<char>)
    ensures
        debug_texts(Seq::empty()) == "["@ + "]"@,
        debug_texts(seq![a]) == "["@ + text::debug_text(a) + "]"@,
        debug_texts(seq![a, b]) == "["@ + text::debug_text(a) + ", "@ + text::debug_text(b) + "]"@,
{
    let quoted = |s: Seq<char>| text::debug_text(s);
    let none = Seq::<Seq<char>>::empty();
    reveal_with_fuel(text::joined, 3);
    assert(none.map_values(quoted) =~= none);
    assert(seq![a].map_values(quoted) =~= seq![text::debug_text(a)]);
    assert(seq![a, b].map_values(quoted) =~= seq![text::debug_text(a), text::debug_text(b)]);
    assert(debug_texts(none) =~= "["@ + "]"@);
    assert(debug_texts(seq![a]) =~= "["@ + text::debug_text(a) + "]"@);
    assert(debug_texts(seq![a, b]) =~= "["@ + text::debug_text(a) + ", "@ + text::debug_text(b)
        + "]"@);
}

} // verus!
