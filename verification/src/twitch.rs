//! The Twitch worker: signing in, keeping the session fresh, polling the
//! follows lists, and answering the browse page's requests.
//!
//! One worker owns the session, because refresh tokens are single-use. What it
//! decides stands here; the requests themselves, the waiting and the settings
//! file are the application's, which does what it is ordered and hands back
//! what came of it.

use crate::helix::{Category, FollowedChannel, LiveStream, Video};
use crate::settings::OAuthTokens;
use crate::text;
use vstd::pervasive::unreached;
use vstd::prelude::*;
use vstd::string::*;

verus! {

/// How often to ask Twitch again who is live, in milliseconds.
pub const POLL_INTERVAL: u64 = 60_000;

/// How much to slow the device-code poll by each time Twitch says that it is
/// asked too often, in seconds. The number is that of RFC 8628.
pub const SLOW_DOWN_STEP: u64 = 5;

/// How many times a refresh that never reached Twitch is tried at startup.
pub const STARTUP_REFRESH_ATTEMPTS: u32 = 3;

/// How long to wait between those, in seconds.
pub const STARTUP_REFRESH_WAIT: u64 = 3;

/// Something the browse page wants fetched.
#[derive(Debug, Clone, PartialEq, Eq)]
pub enum Request {
    /// Who is live and who is followed, now rather than at the next poll.
    Follows,
    /// The most-watched streams overall. `after` continues an existing list
    /// rather than starting one.
    Popular { after: Option<String> },
    /// The categories with the most viewers.
    Categories { after: Option<String> },
    /// The most-watched streams inside one category.
    Category { category: Category, after: Option<String> },
    /// Categories and live channels matching a name.
    Search(String),
    /// One channel's past broadcasts.
    Videos { login: String, user_id: Option<String>, after: Option<String> },
    /// One recording, by its id.
    Video { id: String },
}

/// A page of a browse list, and what to do with it: `append` continues the
/// list, and otherwise the page replaces it.
#[derive(Debug, Clone)]
pub struct Listing<T> {
    pub items: Vec<T>,
    pub next: Option<String>,
    pub append: bool,
}

#[derive(Debug)]
pub enum TwitchEvent {
    /// No client id in settings, so sign-in cannot even begin.
    NeedsClientId,
    /// Show this code and URL; the user types it at twitch.tv/activate.
    AwaitingCode { user_code: String, verification_uri: String },
    SignedIn { login: String },
    Streams(Vec<LiveStream>),
    /// Everyone the user follows, live or not.
    FollowedChannels(Vec<FollowedChannel>),
    /// Pictures for whoever is live, by login.
    Avatars(Vec<(String, String)>),
    /// A follows poll failed with a session that is otherwise fine.
    FollowsError(String),
    Popular(Listing<LiveStream>),
    Categories(Listing<Category>),
    CategoryStreams { category: Category, streams: Listing<LiveStream> },
    SearchResults { query: String, categories: Vec<Category>, streams: Vec<LiveStream> },
    Videos { login: String, user_id: String, videos: Listing<Video> },
    Video { id: String, result: Result<Video, String> },
    /// Sign-in itself failed, so nothing works.
    Error(String),
    /// One browse request failed. The session is fine.
    BrowseError(String),
}

impl TwitchEvent {
    /// The event says that sign-in failed, with this reason.
    pub open spec fn fails_with(self, reason: Seq<char>) -> bool {
        self is Error && self->Error_0@ == reason
    }
}

/// A signed-in session.
#[derive(Debug, Clone, PartialEq, Eq)]
pub struct Session {
    pub access_token: String,
    pub refresh_token: String,
    /// Unix seconds.
    pub expires_at: u64,
    pub user_id: String,
    pub login: String,
}

/// The session that stored tokens stand for.
pub open spec fn session_of(tokens: OAuthTokens) -> Session {
    Session {
        access_token: tokens.access_token,
        refresh_token: tokens.refresh_token,
        expires_at: tokens.expires_at,
        user_id: tokens.user_id,
        login: tokens.login,
    }
}

/// The tokens that a session is stored as.
pub open spec fn tokens_of(session: Session) -> OAuthTokens {
    OAuthTokens {
        access_token: session.access_token,
        refresh_token: session.refresh_token,
        expires_at: session.expires_at,
        user_id: session.user_id,
        login: session.login,
    }
}

/// Storing a session and taking it up again gives the same session.
pub proof fn law_a_stored_session_is_the_session(session: Session)
    ensures
        session_of(tokens_of(session)) == session,
{
}

fn resumed(tokens: OAuthTokens) -> (r: Session)
    ensures
        r == session_of(tokens),
{
    Session {
        access_token: tokens.access_token,
        refresh_token: tokens.refresh_token,
        expires_at: tokens.expires_at,
        user_id: tokens.user_id,
        login: tokens.login,
    }
}

fn copy_session(session: &Session) -> (r: Session)
    ensures
        r == *session,
{
    Session {
        access_token: session.access_token.clone(),
        refresh_token: session.refresh_token.clone(),
        expires_at: session.expires_at,
        user_id: session.user_id.clone(),
        login: session.login.clone(),
    }
}

/// The tokens to store for a session that was just obtained: none once the
/// worker has been told to stop.
///
/// A worker that is replaced while a request of its own is still on the way
/// would otherwise write tokens that belong to the old client id over those
/// of its successor.
pub fn persist(session: &Session, stopped: bool) -> (r: Option<OAuthTokens>)
    ensures
        r == (if stopped {
            None
        } else {
            Some(tokens_of(*session))
        }),
{
    if stopped {
        None
    } else {
        Some(
            OAuthTokens {
                access_token: session.access_token.clone(),
                refresh_token: session.refresh_token.clone(),
                expires_at: session.expires_at,
                user_id: session.user_id.clone(),
                login: session.login.clone(),
            },
        )
    }
}

// ── Signing in ───────────────────────────────────────────────────────

/// Why a refresh came to nothing.
#[derive(Debug, Clone, PartialEq, Eq)]
pub enum Failure {
    /// The request never reached Twitch, or Twitch itself was down, so the
    /// refresh token is unspent and still good.
    Network(String),
    /// Twitch answered and said no: the refresh token is dead.
    Refused(String),
}

/// What Twitch hands out at the start of a device-code sign-in.
#[derive(Debug, Clone, PartialEq, Eq)]
pub struct DeviceCode {
    pub device_code: String,
    pub user_code: String,
    pub verification_uri: String,
    /// How long to wait between polls, in seconds.
    pub interval: u64,
    /// How long the code is good for, in seconds.
    pub expires_in: u64,
}

/// What a poll of a device code came to.
#[derive(Debug)]
pub enum Poll {
    /// Signed in, and what came of storing the tokens.
    Session { session: Session, saved: Result<(), String> },
    /// The user has not typed the code yet.
    Pending,
    /// Twitch is asked too often.
    SlowDown,
    /// The poll itself never reached Twitch. The code is good until it
    /// expires, so this is no reason to stop.
    Network,
    Failed(String),
}

/// Where a sign-in stands.
#[derive(Debug, Clone)]
pub enum SignInPhase {
    /// A refresh of the stored session is on its way, for the so-manieth time.
    Refreshing { stored: Session, attempt: u32 },
    /// Waiting to try the refresh again.
    Pausing { stored: Session, attempt: u32 },
    /// A device code has been asked for.
    Starting,
    /// Waiting before the code is polled again. Times are milliseconds on one
    /// clock.
    Dozing { device_code: String, interval: u64, deadline: u128 },
    /// A poll of the code is on its way.
    Polling { device_code: String, interval: u64, deadline: u128 },
    Over,
}

/// What a piece of outside work came to.
#[derive(Debug)]
pub enum SignInInput {
    /// The refresh worked, and what came of storing the tokens.
    Refreshed { session: Session, saved: Result<(), String> },
    /// The refresh failed, and whether the stored access token has run out.
    NotRefreshed { failure: Failure, expired: bool },
    /// The wait is over: it ran to its end, or the worker was told to stop.
    Waited { whole: bool },
    /// Twitch answered the request for a device code.
    Device { answer: Result<DeviceCode, String>, now: u64 },
    /// Twitch answered a poll.
    Polled { answer: Poll, now: u64 },
}

/// What to do next.
#[derive(Debug, Clone)]
pub enum SignInOrder {
    /// Refresh this session.
    Refresh(Session),
    /// Wait this many seconds, unless told to stop.
    Wait(u64),
    /// Ask for a device code.
    StartDevice,
    /// Poll this device code.
    Poll(String),
    /// The sign-in is over, with this session or none.
    Finish(Option<Session>),
}

/// One turn of the sign-in.
#[derive(Debug)]
pub struct SignInTurn {
    pub next: SignInPhase,
    pub told: Vec<TwitchEvent>,
    pub order: SignInOrder,
}

/// What a session that could not be stored is announced with.
pub open spec fn unsaved(saved: Result<(), String>, told: Seq<TwitchEvent>) -> bool {
    match saved {
        Ok(_) => told.len() == 0,
        Err(e) => told.len() == 1 && told[0].fails_with(
            "signed in but could not save tokens: "@ + e@,
        ),
    }
}

/// Whether a poll may still be made: the code has not expired.
pub open spec fn polls_on(
    device_code: String,
    interval: u64,
    deadline: u128,
    now: u64,
    told: Seq<TwitchEvent>,
    r: SignInTurn,
) -> bool {
    if now < deadline {
        &&& r.told@ == told
        &&& r.next == SignInPhase::Dozing { device_code, interval, deadline }
        &&& r.order == SignInOrder::Wait(interval)
    } else {
        &&& r.told@.len() == told.len() + 1
        &&& r.told@.take(told.len() as int) == told
        &&& r.told@.last().fails_with("the sign-in code expired"@)
        &&& r.next is Over
        &&& r.order == SignInOrder::Finish(None)
    }
}

/// How a sign-in begins: with the stored session where it is still fresh, with
/// a refresh of it where it is not, and with a device code where there is none.
pub open spec fn begins(stored: Option<OAuthTokens>, needs_refresh: bool, r: SignInTurn) -> bool {
    &&& r.told@.len() == 0
    &&& match stored {
        Some(tokens) => if needs_refresh {
            &&& r.next == (SignInPhase::Refreshing { stored: session_of(tokens), attempt: 1 })
            &&& r.order == SignInOrder::Refresh(session_of(tokens))
        } else {
            &&& r.next is Over
            &&& r.order == SignInOrder::Finish(Some(session_of(tokens)))
        },
        None => {
            &&& r.next is Starting
            &&& r.order is StartDevice
        },
    }
}

/// What a sign-in does with what a piece of outside work came to. What does
/// not answer what was ordered ends it.
pub open spec fn sign_in_turn(phase: SignInPhase, input: SignInInput, r: SignInTurn) -> bool {
    match (phase, input) {
        // A refresh that worked.
        (SignInPhase::Refreshing { .. }, SignInInput::Refreshed { session, saved }) => {
            &&& unsaved(saved, r.told@)
            &&& r.next is Over
            &&& r.order == SignInOrder::Finish(Some(session))
        },
        // A refresh that never reached Twitch is tried again; in the end, the
        // stored session is used as long as its access token lives.
        (
            SignInPhase::Refreshing { stored, attempt },
            SignInInput::NotRefreshed { failure: Failure::Network(reason), expired },
        ) => if attempt < STARTUP_REFRESH_ATTEMPTS {
            &&& r.told@.len() == 0
            &&& r.next == (SignInPhase::Pausing { stored, attempt })
            &&& r.order == SignInOrder::Wait(STARTUP_REFRESH_WAIT)
        } else if !expired {
            &&& r.told@.len() == 0
            &&& r.next is Over
            &&& r.order == SignInOrder::Finish(Some(stored))
        } else {
            &&& r.told@.len() == 1
            &&& r.told@[0].fails_with(
                "could not reach Twitch to renew the sign-in: "@ + reason@,
            )
            &&& r.next is Over
            &&& r.order == SignInOrder::Finish(None)
        },
        // A refresh that Twitch refused: starting over is the only way.
        (
            SignInPhase::Refreshing { .. },
            SignInInput::NotRefreshed { failure: Failure::Refused(reason), .. },
        ) => {
            &&& r.told@.len() == 1
            &&& r.told@[0].fails_with("sign-in expired: "@ + reason@)
            &&& r.next is Starting
            &&& r.order is StartDevice
        },
        (SignInPhase::Pausing { stored, attempt }, SignInInput::Waited { whole: true }) => {
            &&& r.told@.len() == 0
            &&& r.next == (SignInPhase::Refreshing {
                stored,
                attempt: if attempt < u32::MAX {
                    (attempt + 1) as u32
                } else {
                    attempt
                },
            })
            &&& r.order == SignInOrder::Refresh(stored)
        },
        (SignInPhase::Starting, SignInInput::Device { answer: Err(reason), .. }) => {
            &&& r.told@.len() == 1
            &&& r.told@[0].fails_with(reason@)
            &&& r.next is Over
            &&& r.order == SignInOrder::Finish(None)
        },
        (SignInPhase::Starting, SignInInput::Device { answer: Ok(device), now }) => {
            let told = TwitchEvent::AwaitingCode {
                user_code: device.user_code,
                verification_uri: device.verification_uri,
            };
            let interval = if device.interval == 0 {
                1
            } else {
                device.interval
            };
            polls_on(
                device.device_code,
                interval,
                (now + device.expires_in * 1000) as u128,
                now,
                seq![told],
                r,
            )
        },
        (
            SignInPhase::Dozing { device_code, interval, deadline },
            SignInInput::Waited { whole: true },
        ) => {
            &&& r.told@.len() == 0
            &&& r.next == (SignInPhase::Polling { device_code, interval, deadline })
            &&& r.order == SignInOrder::Poll(device_code)
        },
        // Signed in.
        (
            SignInPhase::Polling { .. },
            SignInInput::Polled { answer: Poll::Session { session, saved }, .. },
        ) => {
            &&& r.told@.len() > 0
            &&& unsaved(saved, r.told@.drop_last())
            &&& r.told@.last() == (TwitchEvent::SignedIn { login: session.login })
            &&& r.next is Over
            &&& r.order == SignInOrder::Finish(Some(session))
        },
        // Not yet, and as long as the code is good there is nothing to say.
        (
            SignInPhase::Polling { device_code, interval, deadline },
            SignInInput::Polled { answer: Poll::Pending, now },
        ) => polls_on(device_code, interval, deadline, now, Seq::empty(), r),
        (
            SignInPhase::Polling { device_code, interval, deadline },
            SignInInput::Polled { answer: Poll::Network, now },
        ) => polls_on(device_code, interval, deadline, now, Seq::empty(), r),
        (
            SignInPhase::Polling { device_code, interval, deadline },
            SignInInput::Polled { answer: Poll::SlowDown, now },
        ) => polls_on(
            device_code,
            if interval <= u64::MAX - SLOW_DOWN_STEP {
                (interval + SLOW_DOWN_STEP) as u64
            } else {
                u64::MAX
            },
            deadline,
            now,
            Seq::empty(),
            r,
        ),
        (
            SignInPhase::Polling { .. },
            SignInInput::Polled { answer: Poll::Failed(reason), .. },
        ) => {
            &&& r.told@.len() == 1
            &&& r.told@[0].fails_with(reason@)
            &&& r.next is Over
            &&& r.order == SignInOrder::Finish(None)
        },
        // Told to stop.
        _ => {
            &&& r.told@.len() == 0
            &&& r.next is Over
            &&& r.order == SignInOrder::Finish(None)
        },
    }
}

pub fn begin_sign_in(stored: Option<OAuthTokens>, needs_refresh: bool) -> (r: SignInTurn)
    ensures
        begins(stored, needs_refresh, r),
{
    match stored {
        Some(tokens) => {
            let session = resumed(tokens);
            if needs_refresh {
                let order = SignInOrder::Refresh(copy_session(&session));
                SignInTurn {
                    next: SignInPhase::Refreshing { stored: session, attempt: 1 },
                    told: Vec::new(),
                    order,
                }
            } else {
                SignInTurn {
                    next: SignInPhase::Over,
                    told: Vec::new(),
                    order: SignInOrder::Finish(Some(session)),
                }
            }
        },
        None => SignInTurn {
            next: SignInPhase::Starting,
            told: Vec::new(),
            order: SignInOrder::StartDevice,
        },
    }
}

fn over(told: Vec<TwitchEvent>, session: Option<Session>) -> (r: SignInTurn)
    ensures
        r.next is Over,
        r.told == told,
        r.order == SignInOrder::Finish(session),
{
    SignInTurn { next: SignInPhase::Over, told, order: SignInOrder::Finish(session) }
}

fn failure(a: &str, b: &str) -> (r: TwitchEvent)
    ensures
        r.fails_with(a@ + b@),
{
    TwitchEvent::Error(text::concat2(a, b))
}

fn saving(saved: Result<(), String>) -> (r: Vec<TwitchEvent>)
    ensures
        unsaved(saved, r@),
{
    let mut told: Vec<TwitchEvent> = Vec::new();
    match saved {
        Ok(_) => {},
        Err(e) => {
            told.push(failure("signed in but could not save tokens: ", e.as_str()));
        },
    }
    told
}

fn poll_on(
    device_code: String,
    interval: u64,
    deadline: u128,
    now: u64,
    told: Vec<TwitchEvent>,
) -> (r: SignInTurn)
    ensures
        polls_on(device_code, interval, deadline, now, told@, r),
{
    let mut told = told;
    if (now as u128) < deadline {
        SignInTurn {
            next: SignInPhase::Dozing { device_code, interval, deadline },
            told,
            order: SignInOrder::Wait(interval),
        }
    } else {
        let ghost before = told@;
        told.push(TwitchEvent::Error("the sign-in code expired".to_owned()));
        assert(told@.take(before.len() as int) =~= before);
        over(told, None)
    }
}

/// One turn of a sign-in.
pub fn sign_in_step(phase: SignInPhase, input: SignInInput) -> (r: SignInTurn)
    ensures
        sign_in_turn(phase, input, r),
{
    match (phase, input) {
        (SignInPhase::Refreshing { .. }, SignInInput::Refreshed { session, saved }) => over(
            saving(saved),
            Some(session),
        ),
        (
            SignInPhase::Refreshing { stored, attempt },
            SignInInput::NotRefreshed { failure: why, expired },
        ) => match why {
            Failure::Network(reason) => {
                if attempt < STARTUP_REFRESH_ATTEMPTS {
                    SignInTurn {
                        next: SignInPhase::Pausing { stored, attempt },
                        told: Vec::new(),
                        order: SignInOrder::Wait(STARTUP_REFRESH_WAIT),
                    }
                } else if !expired {
                    over(Vec::new(), Some(stored))
                } else {
                    let mut told: Vec<TwitchEvent> = Vec::new();
                    told.push(
                        failure("could not reach Twitch to renew the sign-in: ", reason.as_str()),
                    );
                    over(told, None)
                }
            },
            Failure::Refused(reason) => {
                let mut told: Vec<TwitchEvent> = Vec::new();
                told.push(failure("sign-in expired: ", reason.as_str()));
                SignInTurn { next: SignInPhase::Starting, told, order: SignInOrder::StartDevice }
            },
        },
        (SignInPhase::Pausing { stored, attempt }, SignInInput::Waited { whole: true }) => {
            let order = SignInOrder::Refresh(copy_session(&stored));
            let attempt: u32 = if attempt < u32::MAX {
                attempt + 1
            } else {
                attempt
            };
            SignInTurn {
                next: SignInPhase::Refreshing { stored, attempt },
                told: Vec::new(),
                order,
            }
        },
        (SignInPhase::Starting, SignInInput::Device { answer, now }) => match answer {
            Err(reason) => {
                let mut told: Vec<TwitchEvent> = Vec::new();
                told.push(TwitchEvent::Error(reason));
                over(told, None)
            },
            Ok(device) => {
                let mut told: Vec<TwitchEvent> = Vec::new();
                told.push(
                    TwitchEvent::AwaitingCode {
                        user_code: device.user_code,
                        verification_uri: device.verification_uri,
                    },
                );
                let interval: u64 = if device.interval == 0 {
                    1
                } else {
                    device.interval
                };
                let deadline: u128 = now as u128 + device.expires_in as u128 * 1000;
                assert(told@ =~= seq![told@[0]]);
                poll_on(device.device_code, interval, deadline, now, told)
            },
        },
        (
            SignInPhase::Dozing { device_code, interval, deadline },
            SignInInput::Waited { whole: true },
        ) => {
            let order = SignInOrder::Poll(device_code.clone());
            SignInTurn {
                next: SignInPhase::Polling { device_code, interval, deadline },
                told: Vec::new(),
                order,
            }
        },
        (
            SignInPhase::Polling { device_code, interval, deadline },
            SignInInput::Polled { answer, now },
        ) => {
            let none: Vec<TwitchEvent> = Vec::new();
            assert(none@ =~= Seq::<TwitchEvent>::empty());
            match answer {
                Poll::Session { session, saved } => {
                    let mut told = saving(saved);
                    let ghost before = told@;
                    told.push(TwitchEvent::SignedIn { login: session.login.clone() });
                    assert(told@.drop_last() =~= before);
                    over(told, Some(session))
                },
                Poll::Pending => poll_on(device_code, interval, deadline, now, none),
                Poll::Network => poll_on(device_code, interval, deadline, now, none),
                Poll::SlowDown => {
                    let interval: u64 = if interval <= u64::MAX - SLOW_DOWN_STEP {
                        interval + SLOW_DOWN_STEP
                    } else {
                        u64::MAX
                    };
                    poll_on(device_code, interval, deadline, now, none)
                },
                Poll::Failed(reason) => {
                    let mut told: Vec<TwitchEvent> = Vec::new();
                    told.push(TwitchEvent::Error(reason));
                    over(told, None)
                },
            }
        },
        _ => over(Vec::new(), None),
    }
}

/// A refresh that never reached Twitch has not spent the refresh token, so it
/// never leads to a new device code.
pub proof fn law_an_unspent_token_is_kept(
    phase: SignInPhase,
    reason: String,
    expired: bool,
    r: SignInTurn,
)
    requires
        phase is Refreshing,
        sign_in_turn(
            phase,
            SignInInput::NotRefreshed { failure: Failure::Network(reason), expired },
            r,
        ),
    ensures
        !(r.order is StartDevice),
        !expired ==> r.told@.len() == 0 && (r.order is Wait || r.order == SignInOrder::Finish(
            Some(phase->Refreshing_stored),
        )),
{
}

/// The stored session is refreshed three times at most.
pub proof fn law_refreshes_are_few(phase: SignInPhase, input: SignInInput, r: SignInTurn)
    requires
        phase is Refreshing ==> phase->Refreshing_attempt <= STARTUP_REFRESH_ATTEMPTS,
        phase is Pausing ==> phase->Pausing_attempt < STARTUP_REFRESH_ATTEMPTS,
        sign_in_turn(phase, input, r),
    ensures
        r.next is Refreshing ==> r.next->Refreshing_attempt <= STARTUP_REFRESH_ATTEMPTS,
        r.next is Pausing ==> r.next->Pausing_attempt < STARTUP_REFRESH_ATTEMPTS,
        r.next is Refreshing ==> phase is Pausing && r.next->Refreshing_attempt
            == phase->Pausing_attempt + 1,
{
}

/// A device code is never polled faster than Twitch asked for, and its
/// deadline never moves.
pub proof fn law_polls_never_speed_up(phase: SignInPhase, input: SignInInput, r: SignInTurn)
    requires
        phase is Polling,
        sign_in_turn(phase, input, r),
        r.next is Dozing,
    ensures
        r.next->Dozing_device_code == phase->Polling_device_code,
        r.next->Dozing_interval >= phase->Polling_interval,
        r.next->Dozing_deadline == phase->Polling_deadline,
        r.order == SignInOrder::Wait(r.next->Dozing_interval),
{
}

/// A sign-in that is over has been finished, and only then.
pub proof fn law_a_sign_in_finishes_once(phase: SignInPhase, input: SignInInput, r: SignInTurn)
    requires
        sign_in_turn(phase, input, r),
    ensures
        r.next is Over <==> r.order is Finish,
{
}

// ── Keeping the session fresh ────────────────────────────────────────

/// What comes of a session that was to be kept fresh.
#[derive(Debug)]
pub struct Freshness {
    /// Whether the session can still be used.
    pub usable: bool,
    /// The session that takes its place.
    pub session: Option<Session>,
    pub told: Option<TwitchEvent>,
}

/// Whether a session stays usable. One that needs no refresh does. A refresh
/// that Twitch rejected is the end, because the refresh token is dead either
/// way; one that never got an answer is not, and the next poll tries again.
pub open spec fn kept_fresh(answer: Option<Result<Session, Failure>>, r: Freshness) -> bool {
    match answer {
        None => r.usable && r.session is None && r.told is None,
        Some(Ok(fresh)) => r.usable && r.session == Some(fresh) && r.told is None,
        Some(Err(Failure::Network(_))) => r.usable && r.session is None && r.told is None,
        Some(Err(Failure::Refused(reason))) => {
            &&& !r.usable
            &&& r.session is None
            &&& r.told is Some
            &&& r.told->0.fails_with("refresh failed: "@ + reason@)
        },
    }
}

/// What to make of a refresh, or of there having been no need for one.
pub fn keep_session_fresh(answer: Option<Result<Session, Failure>>) -> (r: Freshness)
    ensures
        kept_fresh(answer, r),
{
    match answer {
        None => Freshness { usable: true, session: None, told: None },
        Some(Ok(fresh)) => Freshness { usable: true, session: Some(fresh), told: None },
        Some(Err(Failure::Network(_))) => Freshness { usable: true, session: None, told: None },
        Some(Err(Failure::Refused(reason))) => Freshness {
            usable: false,
            session: None,
            told: Some(failure("refresh failed: ", reason.as_str())),
        },
    }
}

// ── Polling the follows ──────────────────────────────────────────────

/// Where a poll of the follows stands, and what has gone wrong in it so far.
#[derive(Debug, Clone)]
pub enum FollowsPhase {
    /// Asking who is live.
    Streams,
    /// Asking for the pictures of those who are.
    Avatars,
    /// Asking who is followed at all.
    Channels { failure: Option<String> },
    Over,
}

/// What a request of the poll came to.
#[derive(Debug)]
pub enum FollowsInput {
    Streams(Result<Vec<LiveStream>, String>),
    Avatars(Result<Vec<(String, String)>, String>),
    Channels(Result<Vec<FollowedChannel>, String>),
}

/// What the poll asks next.
#[derive(Debug, Clone)]
pub enum FollowsOrder {
    /// The pictures of these logins.
    Avatars(Vec<String>),
    /// Everyone followed.
    Channels,
    /// Nothing more.
    Finish,
}

/// One turn of the poll.
#[derive(Debug)]
pub struct FollowsTurn {
    pub next: FollowsPhase,
    pub told: Vec<TwitchEvent>,
    pub order: FollowsOrder,
}

/// The logins of streams, in order.
pub open spec fn logins(streams: Seq<LiveStream>) -> Seq<Seq<char>> {
    Seq::new(streams.len(), |i: int| streams[i].user_login@)
}

/// Going on to ask who is followed, unless the worker was told to stop.
pub open spec fn goes_on(failure: Option<String>, stopped: bool, r: FollowsTurn) -> bool {
    if stopped {
        r.next is Over && r.order is Finish
    } else {
        r.next == (FollowsPhase::Channels { failure }) && r.order is Channels
    }
}

/// What the poll does with an answer. Two calls, because no one request says
/// both who is live and who is followed, and at most one complaint. A service
/// that was dropped is asked for nothing more.
pub open spec fn follows_turn(
    phase: FollowsPhase,
    input: FollowsInput,
    stopped: bool,
    r: FollowsTurn,
) -> bool {
    match (phase, input) {
        (FollowsPhase::Streams, FollowsInput::Streams(Ok(streams))) => {
            &&& r.told@ == seq![TwitchEvent::Streams(streams)]
            &&& if streams@.len() > 0 && !stopped {
                &&& r.next is Avatars
                &&& r.order is Avatars
                &&& text::texts(r.order->Avatars_0@) == logins(streams@)
            } else {
                goes_on(None, stopped, r)
            }
        },
        (FollowsPhase::Streams, FollowsInput::Streams(Err(e))) => {
            &&& r.told@.len() == 0
            &&& goes_on(Some(e), stopped, r)
        },
        (FollowsPhase::Avatars, FollowsInput::Avatars(Ok(images))) => {
            &&& r.told@ == seq![TwitchEvent::Avatars(images)]
            &&& goes_on(None, stopped, r)
        },
        // Not worth a failure of its own: every row still has a name.
        (FollowsPhase::Avatars, FollowsInput::Avatars(Err(_))) => {
            &&& r.told@.len() == 0
            &&& goes_on(None, stopped, r)
        },
        (FollowsPhase::Channels { failure }, FollowsInput::Channels(Ok(channels))) => {
            &&& r.told@ == seq![TwitchEvent::FollowedChannels(channels)] + (match failure {
                Some(reason) => seq![TwitchEvent::FollowsError(reason)],
                None => Seq::empty(),
            })
            &&& r.next is Over
            &&& r.order is Finish
        },
        (FollowsPhase::Channels { failure }, FollowsInput::Channels(Err(e))) => {
            &&& r.told@ == seq![
                TwitchEvent::FollowsError(
                    match failure {
                        Some(reason) => reason,
                        None => e,
                    },
                ),
            ]
            &&& r.next is Over
            &&& r.order is Finish
        },
        _ => r.told@.len() == 0 && r.next is Over && r.order is Finish,
    }
}

fn logins_of(streams: &Vec<LiveStream>) -> (r: Vec<String>)
    ensures
        text::texts(r@) == logins(streams@),
{
    let mut out: Vec<String> = Vec::new();
    let mut i: usize = 0;
    while i < streams.len()
        invariant
            i <= streams@.len(),
            out@.len() == i,
            forall|k: int| 0 <= k < i ==> (#[trigger] out@[k])@ == streams@[k].user_login@,
        decreases streams.len() - i,
    {
        out.push(streams[i].user_login.clone());
        i += 1;
    }
    assert(text::texts(out@) =~= logins(streams@));
    out
}

fn go_on(told: Vec<TwitchEvent>, failure: Option<String>, stopped: bool) -> (r: FollowsTurn)
    ensures
        r.told == told,
        goes_on(failure, stopped, r),
{
    if stopped {
        FollowsTurn { next: FollowsPhase::Over, told, order: FollowsOrder::Finish }
    } else {
        FollowsTurn {
            next: FollowsPhase::Channels { failure },
            told,
            order: FollowsOrder::Channels,
        }
    }
}

/// One turn of a poll of the follows.
pub fn poll_follows(phase: FollowsPhase, input: FollowsInput, stopped: bool) -> (r: FollowsTurn)
    ensures
        follows_turn(phase, input, stopped, r),
{
    let mut told: Vec<TwitchEvent> = Vec::new();
    match (phase, input) {
        (FollowsPhase::Streams, FollowsInput::Streams(Ok(streams))) => {
            let live = logins_of(&streams);
            let ghost listed = streams;
            let some = streams.len() > 0;
            told.push(TwitchEvent::Streams(streams));
            assert(told@ =~= seq![TwitchEvent::Streams(listed)]);
            if some && !stopped {
                FollowsTurn { next: FollowsPhase::Avatars, told, order: FollowsOrder::Avatars(live) }
            } else {
                go_on(told, None, stopped)
            }
        },
        (FollowsPhase::Streams, FollowsInput::Streams(Err(e))) => go_on(told, Some(e), stopped),
        (FollowsPhase::Avatars, FollowsInput::Avatars(Ok(images))) => {
            let ghost held = images;
            told.push(TwitchEvent::Avatars(images));
            assert(told@ =~= seq![TwitchEvent::Avatars(held)]);
            go_on(told, None, stopped)
        },
        (FollowsPhase::Avatars, FollowsInput::Avatars(Err(_))) => go_on(told, None, stopped),
        (FollowsPhase::Channels { failure }, FollowsInput::Channels(Ok(channels))) => {
            told.push(TwitchEvent::FollowedChannels(channels));
            assert(told@ =~= seq![told@[0]]);
            match failure {
                Some(reason) => {
                    let ghost before = told@;
                    told.push(TwitchEvent::FollowsError(reason));
                    assert(told@ =~= before + seq![told@[1]]);
                },
                None => {
                    assert(told@ =~= seq![told@[0]] + Seq::empty());
                },
            }
            FollowsTurn { next: FollowsPhase::Over, told, order: FollowsOrder::Finish }
        },
        (FollowsPhase::Channels { failure }, FollowsInput::Channels(Err(e))) => {
            let reason = match failure {
                Some(reason) => reason,
                None => e,
            };
            told.push(TwitchEvent::FollowsError(reason));
            assert(told@ =~= seq![told@[0]]);
            FollowsTurn { next: FollowsPhase::Over, told, order: FollowsOrder::Finish }
        },
        _ => FollowsTurn { next: FollowsPhase::Over, told, order: FollowsOrder::Finish },
    }
}

/// Whether an event complains about the follows.
pub open spec fn complains(event: TwitchEvent) -> bool {
    event is FollowsError
}

/// A turn of the poll complains at most once, last, and only where the poll
/// ends.
pub proof fn law_one_complaint_at_most(
    phase: FollowsPhase,
    input: FollowsInput,
    stopped: bool,
    r: FollowsTurn,
)
    requires
        follows_turn(phase, input, stopped, r),
    ensures
        forall|i: int|
            0 <= i < r.told@.len() && complains(#[trigger] r.told@[i]) ==> i == r.told@.len() - 1
                && r.order is Finish,
{
}

// ── The worker ───────────────────────────────────────────────────────

/// What a worker starts with.
#[derive(Debug)]
pub enum Start {
    /// It cannot start, and says why.
    Stop(TwitchEvent),
    /// It signs in for this application.
    SignIn { client_id: String },
}

/// What a worker does with the settings: nothing can be done without an
/// application's client id.
pub fn start(loaded: bool, client_id: &Option<String>) -> (r: Start)
    ensures
        !loaded ==> r is Stop && r->Stop_0.fails_with("could not read settings"@),
        loaded && (client_id is None || client_id->0@.len() == 0) ==> r == Start::Stop(
            TwitchEvent::NeedsClientId,
        ),
        loaded && client_id is Some && client_id->0@.len() > 0 ==> r == (Start::SignIn {
            client_id: client_id->0,
        }),
{
    if !loaded {
        return Start::Stop(TwitchEvent::Error("could not read settings".to_owned()));
    }
    match client_id {
        Some(id) => if id.as_str().is_empty() {
            Start::Stop(TwitchEvent::NeedsClientId)
        } else {
            Start::SignIn { client_id: id.clone() }
        },
        None => Start::Stop(TwitchEvent::NeedsClientId),
    }
}

/// What a signed-in worker is at.
#[derive(Debug, Clone)]
pub enum WorkerPhase {
    /// Looking at the clock.
    Idle,
    /// Waiting for a request, or for the next poll.
    Listening,
    /// Seeing to the session before a poll, or before a request.
    Freshening { request: Option<Request> },
    /// Asking about the follows, and whether a request asked for it.
    Polling { asked: bool },
    /// Answering a request.
    Serving,
    Over,
}

/// What happened to it.
#[derive(Debug, Clone)]
pub enum WorkerInput {
    /// The clock was read, and whether the worker was told to stop.
    Clock { stopped: bool },
    /// The session was seen to, and whether it can still be used.
    Fresh { usable: bool },
    /// The follows have been asked about.
    Polled,
    /// A request came.
    Asked(Request),
    /// The wait ran out.
    TimedOut,
    /// The service was dropped, which is how shutdown reaches the worker.
    Dropped,
    /// The request was answered.
    Served,
}

/// What it does next. Times are milliseconds on one clock.
#[derive(Debug, Clone)]
pub enum WorkerOrder {
    /// Look at the clock.
    Look,
    /// See to the session.
    Freshen,
    /// Ask about the follows.
    Poll,
    /// Wait for a request, for this long at most.
    Listen { wait: u64 },
    /// Answer this request.
    Serve(Request),
    End,
}

/// A signed-in worker, and when it polls next.
#[derive(Debug, Clone)]
pub struct Worker {
    pub phase: WorkerPhase,
    pub next_poll: u64,
}

/// The worker goes on like this, and does that.
pub open spec fn works_on(
    phase: WorkerPhase,
    next_poll: u64,
    order: WorkerOrder,
    w: Worker,
    r: WorkerOrder,
) -> bool {
    w.phase == phase && w.next_poll == next_poll && r == order
}

/// A millisecond count a while later, as far as it can be counted.
pub open spec fn later(now: u64, wait: u64) -> u64 {
    if now <= u64::MAX - wait {
        (now + wait) as u64
    } else {
        u64::MAX
    }
}

/// What a worker does. It polls when the next poll is due, and answers
/// requests in between; a request for the follows is a poll, and moves the
/// next one. Before either, the session is seen to. Whether to stop is looked
/// at before each wait, but for the wait right behind a poll that was due.
pub open spec fn worker_turn(
    worker: Worker,
    input: WorkerInput,
    now: u64,
    w: Worker,
    r: WorkerOrder,
) -> bool {
    let at = worker.next_poll;
    match (worker.phase, input) {
        (WorkerPhase::Idle, WorkerInput::Clock { stopped }) => if stopped {
            works_on(WorkerPhase::Over, at, WorkerOrder::End, w, r)
        } else if now >= at {
            works_on(WorkerPhase::Freshening { request: None }, at, WorkerOrder::Freshen, w, r)
        } else {
            works_on(
                WorkerPhase::Listening,
                at,
                WorkerOrder::Listen { wait: (at - now) as u64 },
                w,
                r,
            )
        },
        (WorkerPhase::Freshening { request }, WorkerInput::Fresh { usable }) => if !usable {
            works_on(WorkerPhase::Over, at, WorkerOrder::End, w, r)
        } else {
            match request {
                None => works_on(
                    WorkerPhase::Polling { asked: false },
                    at,
                    WorkerOrder::Poll,
                    w,
                    r,
                ),
                Some(Request::Follows) => works_on(
                    WorkerPhase::Polling { asked: true },
                    at,
                    WorkerOrder::Poll,
                    w,
                    r,
                ),
                Some(request) => works_on(
                    WorkerPhase::Serving,
                    at,
                    WorkerOrder::Serve(request),
                    w,
                    r,
                ),
            }
        },
        (WorkerPhase::Polling { asked }, WorkerInput::Polled) => if asked {
            works_on(WorkerPhase::Idle, later(now, POLL_INTERVAL), WorkerOrder::Look, w, r)
        } else {
            works_on(
                WorkerPhase::Listening,
                later(now, POLL_INTERVAL),
                WorkerOrder::Listen { wait: (later(now, POLL_INTERVAL) - now) as u64 },
                w,
                r,
            )
        },
        (WorkerPhase::Listening, WorkerInput::Asked(request)) => works_on(
            WorkerPhase::Freshening { request: Some(request) },
            at,
            WorkerOrder::Freshen,
            w,
            r,
        ),
        (WorkerPhase::Listening, WorkerInput::TimedOut) => works_on(
            WorkerPhase::Idle,
            at,
            WorkerOrder::Look,
            w,
            r,
        ),
        (WorkerPhase::Serving, WorkerInput::Served) => works_on(
            WorkerPhase::Idle,
            at,
            WorkerOrder::Look,
            w,
            r,
        ),
        _ => works_on(WorkerPhase::Over, at, WorkerOrder::End, w, r),
    }
}

/// One turn of a signed-in worker.
pub fn worker_step(worker: &mut Worker, input: WorkerInput, now: u64) -> (r: WorkerOrder)
    ensures
        worker_turn(*old(worker), input, now, *final(worker), r),
{
    let mut phase = WorkerPhase::Over;
    std::mem::swap(&mut phase, &mut worker.phase);
    match (phase, input) {
        (WorkerPhase::Idle, WorkerInput::Clock { stopped }) => if stopped {
            WorkerOrder::End
        } else if now >= worker.next_poll {
            worker.phase = WorkerPhase::Freshening { request: None };
            WorkerOrder::Freshen
        } else {
            worker.phase = WorkerPhase::Listening;
            WorkerOrder::Listen { wait: worker.next_poll - now }
        },
        (WorkerPhase::Freshening { request }, WorkerInput::Fresh { usable }) => if !usable {
            WorkerOrder::End
        } else {
            match request {
                None => {
                    worker.phase = WorkerPhase::Polling { asked: false };
                    WorkerOrder::Poll
                },
                Some(Request::Follows) => {
                    worker.phase = WorkerPhase::Polling { asked: true };
                    WorkerOrder::Poll
                },
                Some(request) => {
                    worker.phase = WorkerPhase::Serving;
                    WorkerOrder::Serve(request)
                },
            }
        },
        (WorkerPhase::Polling { asked }, WorkerInput::Polled) => {
            worker.next_poll = if now <= u64::MAX - POLL_INTERVAL {
                now + POLL_INTERVAL
            } else {
                u64::MAX
            };
            if asked {
                worker.phase = WorkerPhase::Idle;
                WorkerOrder::Look
            } else {
                worker.phase = WorkerPhase::Listening;
                WorkerOrder::Listen { wait: worker.next_poll - now }
            }
        },
        (WorkerPhase::Listening, WorkerInput::Asked(request)) => {
            worker.phase = WorkerPhase::Freshening { request: Some(request) };
            WorkerOrder::Freshen
        },
        (WorkerPhase::Listening, WorkerInput::TimedOut) => {
            worker.phase = WorkerPhase::Idle;
            WorkerOrder::Look
        },
        (WorkerPhase::Serving, WorkerInput::Served) => {
            worker.phase = WorkerPhase::Idle;
            WorkerOrder::Look
        },
        _ => WorkerOrder::End,
    }
}

/// Nothing is asked of Twitch with a session that was not seen to just before.
pub proof fn law_no_request_on_a_stale_session(
    worker: Worker,
    input: WorkerInput,
    now: u64,
    w: Worker,
    r: WorkerOrder,
)
    requires
        worker_turn(worker, input, now, w, r),
        r is Poll || r is Serve,
    ensures
        worker.phase is Freshening,
        input == (WorkerInput::Fresh { usable: true }),
{
}

/// A poll by hand is a poll: the next one on the timer is a full interval
/// away, as it is behind one that was due.
pub proof fn law_a_poll_moves_the_timer(worker: Worker, now: u64, w: Worker, r: WorkerOrder)
    requires
        worker.phase is Polling,
        worker_turn(worker, WorkerInput::Polled, now, w, r),
        now <= u64::MAX - POLL_INTERVAL,
    ensures
        w.next_poll == now + POLL_INTERVAL,
        worker.phase->asked ==> w.phase is Idle && r is Look,
        !worker.phase->asked ==> w.phase is Listening && r == (WorkerOrder::Listen {
            wait: POLL_INTERVAL,
        }),
{
}

// ── Answering a request ──────────────────────────────────────────────

/// What a request was answered with. A page comes with the cursor of the one
/// behind it.
#[derive(Debug)]
pub enum Reply {
    Streams(Result<(Vec<LiveStream>, Option<String>), String>),
    Categories(Result<(Vec<Category>, Option<String>), String>),
    Found(Result<(Vec<Category>, Vec<LiveStream>), String>),
    Videos(Result<(String, Vec<Video>, Option<String>), String>),
    Video(Result<Video, String>),
}

/// A reply that answers a request.
pub open spec fn answers(request: Request, reply: Reply) -> bool {
    match request {
        Request::Follows => false,
        Request::Popular { .. } => reply is Streams,
        Request::Categories { .. } => reply is Categories,
        Request::Category { .. } => reply is Streams,
        Request::Search(_) => reply is Found,
        Request::Videos { .. } => reply is Videos,
        Request::Video { .. } => reply is Video,
    }
}

/// The event that a request and its reply come to. A request that continued a
/// list says so. A recording looked up by its id is answered by its own event
/// also where the lookup failed; any other failure is the browse page's.
pub open spec fn reply_event(request: Request, reply: Reply) -> TwitchEvent {
    match (request, reply) {
        (Request::Popular { after }, Reply::Streams(Ok((items, next)))) => TwitchEvent::Popular(
            Listing { items, next, append: after is Some },
        ),
        (Request::Categories { after }, Reply::Categories(Ok((items, next)))) =>
            TwitchEvent::Categories(Listing { items, next, append: after is Some }),
        (Request::Category { category, after }, Reply::Streams(Ok((items, next)))) =>
            TwitchEvent::CategoryStreams {
            category,
            streams: Listing { items, next, append: after is Some },
        },
        (Request::Search(query), Reply::Found(Ok((categories, streams)))) =>
            TwitchEvent::SearchResults { query, categories, streams },
        (Request::Videos { login, after, .. }, Reply::Videos(Ok((user_id, items, next)))) =>
            TwitchEvent::Videos {
            login,
            user_id,
            videos: Listing { items, next, append: after is Some },
        },
        (Request::Video { id }, Reply::Video(result)) => TwitchEvent::Video { id, result },
        (_, Reply::Streams(Err(e))) => TwitchEvent::BrowseError(e),
        (_, Reply::Categories(Err(e))) => TwitchEvent::BrowseError(e),
        (_, Reply::Found(Err(e))) => TwitchEvent::BrowseError(e),
        (_, Reply::Videos(Err(e))) => TwitchEvent::BrowseError(e),
        _ => arbitrary(),
    }
}

/// What a request is answered with.
pub fn serve(request: Request, reply: Reply) -> (r: TwitchEvent)
    requires
        answers(request, reply),
    ensures
        r == reply_event(request, reply),
{
    match (request, reply) {
        (Request::Popular { after }, Reply::Streams(Ok((items, next)))) => TwitchEvent::Popular(
            Listing { items, next, append: after.is_some() },
        ),
        (Request::Categories { after }, Reply::Categories(Ok((items, next)))) =>
            TwitchEvent::Categories(Listing { items, next, append: after.is_some() }),
        (Request::Category { category, after }, Reply::Streams(Ok((items, next)))) =>
            TwitchEvent::CategoryStreams {
            category,
            streams: Listing { items, next, append: after.is_some() },
        },
        (Request::Search(query), Reply::Found(Ok((categories, streams)))) =>
            TwitchEvent::SearchResults { query, categories, streams },
        (Request::Videos { login, after, .. }, Reply::Videos(Ok((user_id, items, next)))) =>
            TwitchEvent::Videos {
            login,
            user_id,
            videos: Listing { items, next, append: after.is_some() },
        },
        (Request::Video { id }, Reply::Video(result)) => TwitchEvent::Video { id, result },
        (_, Reply::Streams(Err(e))) => TwitchEvent::BrowseError(e),
        (_, Reply::Categories(Err(e))) => TwitchEvent::BrowseError(e),
        (_, Reply::Found(Err(e))) => TwitchEvent::BrowseError(e),
        (_, Reply::Videos(Err(e))) => TwitchEvent::BrowseError(e),
        _ => unreached(),
    }
}

// ── Laws ─────────────────────────────────────────────────────────────

/// A stored session is taken up as it is while it is fresh, renewed where it is
/// not, and where there is none a code is asked for.
pub proof fn law_a_sign_in_takes_up_what_is_stored(
    tokens: OAuthTokens,
    stale: bool,
    r: SignInTurn,
)
    ensures
        begins(Some(tokens), false, r) ==> r.order is Finish && r.order->Finish_0 is Some
            && r.order->Finish_0->0.access_token == tokens.access_token
            && r.order->Finish_0->0.refresh_token == tokens.refresh_token
            && r.order->Finish_0->0.login == tokens.login && r.order->Finish_0->0.user_id
            == tokens.user_id && r.order->Finish_0->0.expires_at == tokens.expires_at,
        begins(Some(tokens), true, r) ==> r.order is Refresh && r.order->Refresh_0.refresh_token
            == tokens.refresh_token && r.next is Refreshing,
        begins(None, stale, r) ==> r.order is StartDevice && r.next is Starting,
        begins(Some(tokens), stale, r) || begins(None, stale, r) ==> r.told@.len() == 0,
{
}

/// A sign-in ends with a session only where Twitch gave one or the stored one
/// still lives, and with that very session; by code, it is said who signed in.
pub proof fn law_a_sign_in_ends_with_what_twitch_gave(
    phase: SignInPhase,
    input: SignInInput,
    r: SignInTurn,
    session: Session,
)
    requires
        sign_in_turn(phase, input, r),
    ensures
        r.order == SignInOrder::Finish(Some(session)) ==> match input {
            SignInInput::Refreshed { session: given, .. } => phase is Refreshing && session == given,
            SignInInput::Polled { answer: Poll::Session { session: given, .. }, .. } => phase
                is Polling && session == given && r.told@.len() > 0 && r.told@.last()
                == (TwitchEvent::SignedIn { login: session.login }),
            SignInInput::NotRefreshed { failure, expired } => failure is Network && !expired
                && phase is Refreshing && session == phase->Refreshing_stored,
            _ => false,
        },
        phase is Refreshing && input is Refreshed ==> r.order == SignInOrder::Finish(
            Some(input->Refreshed_session),
        ),
        phase is Polling && input is Polled && input->Polled_answer is Session ==> r.order
            == SignInOrder::Finish(Some(input->Polled_answer->session)),
        input is Waited && !input->whole ==> r.order == SignInOrder::Finish(None) && r.told@.len()
            == 0,
        phase is Refreshing && input is NotRefreshed && input->failure is Refused ==> r.order
            is StartDevice,
{
}

/// A code is shown as Twitch gave it, and polled after as long as Twitch asked
/// for and at least a second, the same one until it runs out.
pub proof fn law_a_code_is_polled_until_it_runs_out(
    device: DeviceCode,
    now: u64,
    r: SignInTurn,
    later: SignInTurn,
    answer: Poll,
    then: u64,
    polled: SignInTurn,
)
    requires
        sign_in_turn(
            SignInPhase::Starting,
            SignInInput::Device { answer: Ok(device), now },
            r,
        ),
        device.expires_in > 0,
        sign_in_turn(r.next, SignInInput::Waited { whole: true }, later),
        sign_in_turn(later.next, SignInInput::Polled { answer, now: then }, polled),
    ensures
        r.told@ == seq![
            TwitchEvent::AwaitingCode {
                user_code: device.user_code,
                verification_uri: device.verification_uri,
            },
        ],
        device.interval > 0 ==> r.order == SignInOrder::Wait(device.interval),
        device.interval == 0 ==> r.order == SignInOrder::Wait(1),
        later.order == SignInOrder::Poll(device.device_code),
        answer is Pending && then < now + device.expires_in * 1000 ==> polled.order == r.order
            && polled.told@.len() == 0,
        answer is Network && then < now + device.expires_in * 1000 ==> polled.order == r.order
            && polled.told@.len() == 0,
        answer is SlowDown && then < now + device.expires_in * 1000 && 0 < device.interval
            < 0xFFFF_FFFF ==> polled.order == SignInOrder::Wait((device.interval + 5) as u64),
        (answer is Pending || answer is Network || answer is SlowDown) && then >= now
            + device.expires_in * 1000 ==> polled.order == SignInOrder::Finish(None)
            && polled.told@.len() == 1 && polled.told@[0].fails_with("the sign-in code expired"@),
        answer is Failed ==> polled.order == SignInOrder::Finish(None) && polled.told@.len() == 1
            && polled.told@[0].fails_with(answer->Failed_0@),
{
}

/// A session that Twitch cannot be asked about is used on, one that was renewed
/// gives way to the new one, and one that Twitch refused is not used again.
pub proof fn law_only_a_refused_session_ends(
    answer: Option<Result<Session, Failure>>,
    r: Freshness,
)
    requires
        kept_fresh(answer, r),
    ensures
        r.usable <==> !(answer is Some && answer->0 is Err && answer->0->Err_0 is Refused),
        r.session is Some <==> answer is Some && answer->0 is Ok,
        answer matches Some(Ok(fresh)) ==> r.session == Some(fresh),
        r.told is Some <==> !r.usable,
        answer matches Some(Err(Failure::Refused(reason))) ==> r.told->0.fails_with(
            "refresh failed: "@ + reason@,
        ),
{
}

/// A poll tells who is live as soon as that is known, asks for the pictures of
/// exactly those, and for everybody followed whatever became of the rest; what
/// failed first is what is complained of in the end.
pub proof fn law_a_poll_tells_what_it_learned(
    streams: Vec<LiveStream>,
    channels: Vec<FollowedChannel>,
    images: Vec<(String, String)>,
    reason: String,
    other: String,
    r: FollowsTurn,
)
    ensures
        follows_turn(FollowsPhase::Streams, FollowsInput::Streams(Ok(streams)), false, r)
            ==> r.told@ == seq![TwitchEvent::Streams(streams)] && (streams@.len() == 0 ==> r.order
            is Channels) && (streams@.len() > 0 ==> r.order is Avatars && r.order->Avatars_0@.len()
            == streams@.len() && forall|i: int|
            0 <= i < streams@.len() ==> (#[trigger] r.order->Avatars_0@[i])@
                == streams@[i].user_login@),
        follows_turn(FollowsPhase::Streams, FollowsInput::Streams(Err(reason)), false, r)
            ==> r.told@.len() == 0 && r.order is Channels && r.next == (FollowsPhase::Channels {
            failure: Some(reason),
        }),
        follows_turn(FollowsPhase::Avatars, FollowsInput::Avatars(Ok(images)), false, r) ==> r.told@
            == seq![TwitchEvent::Avatars(images)] && r.order is Channels && r.next
            == (FollowsPhase::Channels { failure: None }),
        follows_turn(FollowsPhase::Avatars, FollowsInput::Avatars(Err(reason)), false, r)
            ==> r.told@.len() == 0 && r.order is Channels && r.next == (FollowsPhase::Channels {
            failure: None,
        }),
        follows_turn(
            FollowsPhase::Channels { failure: None },
            FollowsInput::Channels(Ok(channels)),
            false,
            r,
        ) ==> r.told@ == seq![TwitchEvent::FollowedChannels(channels)] && r.order is Finish,
        follows_turn(
            FollowsPhase::Channels { failure: Some(reason) },
            FollowsInput::Channels(Ok(channels)),
            false,
            r,
        ) ==> r.told@ == seq![
            TwitchEvent::FollowedChannels(channels),
            TwitchEvent::FollowsError(reason),
        ] && r.order is Finish,
        follows_turn(
            FollowsPhase::Channels { failure: None },
            FollowsInput::Channels(Err(other)),
            false,
            r,
        ) ==> r.told@ == seq![TwitchEvent::FollowsError(other)] && r.order is Finish,
        follows_turn(
            FollowsPhase::Channels { failure: Some(reason) },
            FollowsInput::Channels(Err(other)),
            false,
            r,
        ) ==> r.told@ == seq![TwitchEvent::FollowsError(reason)] && r.order is Finish,
{
    if follows_turn(FollowsPhase::Streams, FollowsInput::Streams(Ok(streams)), false, r)
        && streams@.len() > 0 {
        let named = text::texts(r.order->Avatars_0@);
        assert(named.len() == streams@.len());
        assert forall|i: int| 0 <= i < streams@.len() implies (#[trigger] r.order->Avatars_0@[i])@
            == streams@[i].user_login@ by {
            assert(named[i] == r.order->Avatars_0@[i]@);
        }
    }
    if follows_turn(
        FollowsPhase::Channels { failure: Some(reason) },
        FollowsInput::Channels(Ok(channels)),
        false,
        r,
    ) {
        assert(r.told@ =~= seq![
            TwitchEvent::FollowedChannels(channels),
            TwitchEvent::FollowsError(reason),
        ]);
    }
    if follows_turn(
        FollowsPhase::Channels { failure: None },
        FollowsInput::Channels(Ok(channels)),
        false,
        r,
    ) {
        assert(r.told@ =~= seq![TwitchEvent::FollowedChannels(channels)]);
    }
}

/// A request is answered as it was asked, behind a session that was seen to; one
/// for the follows is a poll; and between polls the worker waits for requests
/// exactly as long as it has.
pub proof fn law_a_request_is_answered_as_asked(
    worker: Worker,
    request: Request,
    now: u64,
    first: Worker,
    a: WorkerOrder,
    then: u64,
    second: Worker,
    b: WorkerOrder,
    turned: Worker,
    c: WorkerOrder,
)
    requires
        worker.phase is Listening,
        worker_turn(worker, WorkerInput::Asked(request), now, first, a),
        worker_turn(first, WorkerInput::Fresh { usable: true }, then, second, b),
    ensures
        a is Freshen,
        request is Follows ==> b is Poll,
        !(request is Follows) ==> b == WorkerOrder::Serve(request),
        second.next_poll == worker.next_poll,
        worker_turn(worker, WorkerInput::Dropped, now, turned, c) ==> c is End,
        worker_turn(worker, WorkerInput::TimedOut, now, turned, c) ==> c is Look && turned.next_poll
            == worker.next_poll,
{
}

/// A worker that is looked at while it is idle stops if it is told to, polls if
/// a poll is due, and otherwise waits until one is.
pub proof fn law_a_poll_comes_when_it_is_due(
    worker: Worker,
    stopped: bool,
    now: u64,
    w: Worker,
    r: WorkerOrder,
    then: u64,
    next: Worker,
    polls: WorkerOrder,
)
    requires
        worker.phase is Idle,
        worker_turn(worker, WorkerInput::Clock { stopped }, now, w, r),
    ensures
        stopped ==> r is End,
        !stopped && now < worker.next_poll ==> r == (WorkerOrder::Listen {
            wait: (worker.next_poll - now) as u64,
        }),
        !stopped && now >= worker.next_poll ==> r is Freshen && (worker_turn(
            w,
            WorkerInput::Fresh { usable: true },
            then,
            next,
            polls,
        ) ==> polls is Poll) && (worker_turn(
            w,
            WorkerInput::Fresh { usable: false },
            then,
            next,
            polls,
        ) ==> polls is End),
        w.next_poll == worker.next_poll,
{
}

/// What Twitch answered is what is told, for what was asked: the items and the
/// cursor of a page, as a continuation exactly where one was asked for; and a
/// failure by its reason.
pub proof fn law_an_answer_is_told_for_its_request(
    request: Request,
    streams: Vec<LiveStream>,
    categories: Vec<Category>,
    videos: Vec<Video>,
    next: Option<String>,
    user_id: String,
    found: Result<Video, String>,
    reason: String,
)
    ensures
        request matches Request::Popular { after } ==> ({
            let told = reply_event(request, Reply::Streams(Ok((streams, next))));
            told == TwitchEvent::Popular(Listing { items: streams, next, append: after is Some })
                && reply_event(request, Reply::Streams(Err(reason))) == TwitchEvent::BrowseError(
                reason,
            )
        }),
        request matches Request::Categories { after } ==> ({
            let told = reply_event(request, Reply::Categories(Ok((categories, next))));
            told == TwitchEvent::Categories(
                Listing { items: categories, next, append: after is Some },
            ) && reply_event(request, Reply::Categories(Err(reason))) == TwitchEvent::BrowseError(
                reason,
            )
        }),
        request matches Request::Category { category, after } ==> reply_event(
            request,
            Reply::Streams(Ok((streams, next))),
        ) == (TwitchEvent::CategoryStreams {
            category,
            streams: Listing { items: streams, next, append: after is Some },
        }),
        request matches Request::Search(query) ==> reply_event(
            request,
            Reply::Found(Ok((categories, streams))),
        ) == (TwitchEvent::SearchResults { query, categories, streams }) && reply_event(
            request,
            Reply::Found(Err(reason)),
        ) == TwitchEvent::BrowseError(reason),
        request matches Request::Videos { login, after, .. } ==> reply_event(
            request,
            Reply::Videos(Ok((user_id, videos, next))),
        ) == (TwitchEvent::Videos {
            login,
            user_id,
            videos: Listing { items: videos, next, append: after is Some },
        }) && reply_event(request, Reply::Videos(Err(reason))) == TwitchEvent::BrowseError(reason),
        request matches Request::Video { id } ==> reply_event(request, Reply::Video(found))
            == (TwitchEvent::Video { id, result: found }),
{
}

/// A sign-in whose tokens could not be written down still stands, and says so
/// once; one whose tokens were says nothing of them.
pub proof fn law_a_sign_in_that_cannot_be_kept_is_told(
    stored: Session,
    attempt: u32,
    session: Session,
    saved: Result<(), String>,
    r: SignInTurn,
)
    requires
        sign_in_turn(
            SignInPhase::Refreshing { stored, attempt },
            SignInInput::Refreshed { session, saved },
            r,
        ),
    ensures
        r.order == SignInOrder::Finish(Some(session)),
        saved is Ok ==> r.told@.len() == 0,
        saved matches Err(e) ==> r.told@.len() == 1 && r.told@[0].fails_with(
            "signed in but could not save tokens: "@ + e@,
        ),
{
}

/// A refresh that never reached Twitch is made three times in all, three
/// seconds apart. After that the stored session is used while its token lives,
/// and where it no longer does the window hears what stood in the way. One
/// that Twitch refused is not made again: a code is asked for.
pub proof fn law_a_refresh_is_tried_three_times(
    stored: Session,
    attempt: u32,
    reason: String,
    expired: bool,
    r: SignInTurn,
)
    ensures
        sign_in_turn(
            SignInPhase::Refreshing { stored, attempt },
            SignInInput::NotRefreshed { failure: Failure::Network(reason), expired },
            r,
        ) ==> {
            &&& attempt < 3 ==> r.order == SignInOrder::Wait(3) && r.told@.len() == 0 && r.next
                == (SignInPhase::Pausing { stored, attempt })
            &&& attempt >= 3 && !expired ==> r.order == SignInOrder::Finish(Some(stored))
                && r.told@.len() == 0
            &&& attempt >= 3 && expired ==> r.order == SignInOrder::Finish(None) && r.told@.len()
                == 1 && r.told@[0].fails_with(
                "could not reach Twitch to renew the sign-in: "@ + reason@,
            )
        },
        sign_in_turn(
            SignInPhase::Refreshing { stored, attempt },
            SignInInput::NotRefreshed { failure: Failure::Refused(reason), expired },
            r,
        ) ==> r.order is StartDevice && r.told@.len() == 1 && r.told@[0].fails_with(
            "sign-in expired: "@ + reason@,
        ),
        sign_in_turn(
            SignInPhase::Pausing { stored, attempt },
            SignInInput::Waited { whole: true },
            r,
        ) && attempt < 3 ==> r.order == SignInOrder::Refresh(stored) && r.next
            == (SignInPhase::Refreshing { stored, attempt: (attempt + 1) as u32 }),
{
}

} // verus!
