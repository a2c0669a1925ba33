//! Running streamlink as a headless byte source: what it is asked, how its
//! answers are read, and what follows from them.
//!
//! A channel is served by streamlink over loopback. A recording is only
//! resolved: streamlink names the playlist of each quality and retires, and
//! the player opens the playlist itself. The processes, the port and the pipes
//! are the application's; every decision between them is here.

use crate::playlist::Playlist;
use crate::quality;
use crate::quality::Quality;
use crate::text;
use vstd::prelude::*;
use vstd::string::*;

verus! {

/// How to open one channel.
#[derive(Debug, Clone, PartialEq, Eq)]
pub struct StreamOptions {
    /// Explicit streamlink quality name. `None` picks one from the pane size.
    pub quality: Option<String>,
    /// The twitch.tv `auth-token` cookie.
    pub auth_token: Option<String>,
}

impl Default for StreamOptions {
    fn default() -> (r: StreamOptions)
        ensures
            r.quality is None,
            r.auth_token is None,
    {
        StreamOptions { quality: None, auth_token: None }
    }
}

/// A text that may be missing, as a sequence.
pub open spec fn maybe(s: Option<String>) -> Option<Seq<char>> {
    match s {
        Some(s) => Some(s@),
        None => None,
    }
}

/// The first of two tokens that is there, where it holds anything.
pub open spec fn token_of(own: Option<Seq<char>>, other: Option<Seq<char>>) -> Option<Seq<char>> {
    let token = if own is Some {
        own
    } else {
        other
    };
    if token is Some && token->Some_0.len() > 0 {
        token
    } else {
        None
    }
}

impl StreamOptions {
    /// The token to send: the one from the settings, or else the one from the
    /// environment, if it is not empty.
    pub fn token(&self, environment: &Option<String>) -> (r: Option<String>)
        ensures
            maybe(r) == token_of(maybe(self.auth_token), maybe(*environment)),
    {
        let token = match &self.auth_token {
            Some(token) => token,
            None => match environment {
                Some(token) => token,
                None => {
                    return None;
                },
            },
        };
        if token.as_str().is_empty() {
            None
        } else {
            Some(token.clone())
        }
    }
}

/// The twitch.tv path for a channel's live stream.
pub fn channel_target(channel: &str) -> (r: String)
    ensures
        r@ == "twitch.tv/"@ + channel@,
{
    text::concat2("twitch.tv/", channel)
}

/// Where streamlink may be, in the order it is looked for. A place that the
/// environment names is the only one, so that an unusual install is never
/// passed over.
pub open spec fn places(explicit: Option<Seq<char>>, windows: bool) -> Seq<Seq<char>> {
    match explicit {
        Some(path) => seq![path],
        None => if windows {
            seq![
                "streamlink"@,
                "C:\\Program Files\\Streamlink\\bin\\streamlink.exe"@,
                "C:\\Program Files (x86)\\Streamlink\\bin\\streamlink.exe"@,
            ]
        } else {
            seq![
                "streamlink"@,
                "/usr/bin/streamlink"@,
                "/usr/local/bin/streamlink"@,
                "/opt/homebrew/bin/streamlink"@,
            ]
        },
    }
}

pub fn candidates(explicit: &Option<String>, windows: bool) -> (r: Vec<String>)
    ensures
        text::texts(r@) == places(maybe(*explicit), windows),
{
    let mut out: Vec<String> = Vec::new();
    assert(text::texts(out@) =~= Seq::<Seq<char>>::empty());
    match explicit {
        Some(path) => push_text(&mut out, path.as_str()),
        None => {
            push_text(&mut out, "streamlink");
            if windows {
                push_text(&mut out, "C:\\Program Files\\Streamlink\\bin\\streamlink.exe");
                push_text(&mut out, "C:\\Program Files (x86)\\Streamlink\\bin\\streamlink.exe");
            } else {
                push_text(&mut out, "/usr/bin/streamlink");
                push_text(&mut out, "/usr/local/bin/streamlink");
                push_text(&mut out, "/opt/homebrew/bin/streamlink");
            }
        },
    }
    assert(text::texts(out@) =~= places(maybe(*explicit), windows));
    out
}

/// The twitch.tv path for a video.
pub fn video_target(video_id: &str) -> (r: String)
    ensures
        r@ == "twitch.tv/videos/"@ + video_id@,
{
    text::concat2("twitch.tv/videos/", video_id)
}

/// The arguments that the probe and the serving run share.
pub open spec fn shared_args(target: Seq<char>, token: Option<Seq<char>>) -> Seq<Seq<char>> {
    let codecs = seq!["--twitch-supported-codecs"@, "h264,h265,av1"@];
    match token {
        Some(token) => codecs + seq![
            "--twitch-api-header"@,
            "Authorization=OAuth "@ + token,
            target,
        ],
        None => codecs + seq![target],
    }
}

fn push_text(out: &mut Vec<String>, s: &str)
    ensures
        text::texts(final(out)@) == text::texts(old(out)@).push(s@),
{
    out.push(s.to_owned());
    assert(text::texts(out@) =~= text::texts(old(out)@).push(s@));
}

/// Shared arguments for the quality probe and the serving run, for a channel
/// or a video alike.
pub fn twitch_args(target: &str, options: &StreamOptions, environment: &Option<String>) -> (r: Vec<
    String,
>)
    ensures
        text::texts(r@) == shared_args(
            target@,
            token_of(maybe(options.auth_token), maybe(*environment)),
        ),
{
    let mut args: Vec<String> = Vec::new();
    assert(text::texts(args@) =~= Seq::<Seq<char>>::empty());
    push_text(&mut args, "--twitch-supported-codecs");
    push_text(&mut args, "h264,h265,av1");
    if let Some(token) = options.token(environment) {
        push_text(&mut args, "--twitch-api-header");
        let header = text::concat2("Authorization=OAuth ", token.as_str());
        push_text(&mut args, header.as_str());
    }
    push_text(&mut args, target);
    assert(text::texts(args@) =~= shared_args(
        target@,
        token_of(maybe(options.auth_token), maybe(*environment)),
    ));
    args
}

/// The arguments of the probe.
pub open spec fn probe_args_of(target: Seq<char>, token: Option<Seq<char>>) -> Seq<Seq<char>> {
    seq!["--json"@] + shared_args(target, token)
}

/// The arguments that ask streamlink what `target` offers.
pub fn probe_args(target: &str, options: &StreamOptions, environment: &Option<String>) -> (r: Vec<
    String,
>)
    ensures
        text::texts(r@) == probe_args_of(
            target@,
            token_of(maybe(options.auth_token), maybe(*environment)),
        ),
{
    let mut args: Vec<String> = Vec::new();
    assert(text::texts(args@) =~= Seq::<Seq<char>>::empty());
    push_text(&mut args, "--json");
    let mut shared = twitch_args(target, options, environment);
    let ghost more = shared@;
    let ghost held = args@;
    args.append(&mut shared);
    assert(text::texts(args@) =~= text::texts(held) + text::texts(more));
    args
}

/// The arguments of the serving run.
pub open spec fn serve_args_of(
    port: u16,
    target: Seq<char>,
    token: Option<Seq<char>>,
    quality: Seq<char>,
) -> Seq<Seq<char>> {
    seq![
        "--player-external-http"@,
        "--player-external-http-port"@,
        text::decimal(port as nat),
        "--player-external-http-interface"@,
        "127.0.0.1"@,
        "--twitch-low-latency"@,
    ] + shared_args(target, token) + seq![quality]
}

/// The arguments that make streamlink serve `target` on loopback, and on
/// loopback only.
pub fn serve_args(
    port: u16,
    target: &str,
    options: &StreamOptions,
    environment: &Option<String>,
    quality: &str,
) -> (r: Vec<String>)
    ensures
        text::texts(r@) == serve_args_of(
            port,
            target@,
            token_of(maybe(options.auth_token), maybe(*environment)),
            quality@,
        ),
{
    let mut args: Vec<String> = Vec::new();
    assert(text::texts(args@) =~= Seq::<Seq<char>>::empty());
    push_text(&mut args, "--player-external-http");
    push_text(&mut args, "--player-external-http-port");
    let mut number = String::new();
    text::push_decimal(&mut number, port as u64);
    assert(number@ =~= text::decimal(port as nat));
    push_text(&mut args, number.as_str());
    push_text(&mut args, "--player-external-http-interface");
    push_text(&mut args, "127.0.0.1");
    push_text(&mut args, "--twitch-low-latency");
    let ghost held = args@;
    let mut shared = twitch_args(target, options, environment);
    let ghost more = shared@;
    args.append(&mut shared);
    assert(text::texts(args@) =~= text::texts(held) + text::texts(more));
    push_text(&mut args, quality);
    assert(text::texts(args@) =~= serve_args_of(
        port,
        target@,
        token_of(maybe(options.auth_token), maybe(*environment)),
        quality@,
    ));
    args
}

// ── Reading the probe's answer ───────────────────────────────────────

/// What is read in a JSON object: the text at `key`, where there is one; and the
/// members of the object at `list`, where there is one, each with the text at
/// `inner` of it. Or why the bytes are no JSON.
pub uninterp spec fn json_at(
    bytes: Seq<u8>,
    key: Seq<char>,
    list: Seq<char>,
    inner: Seq<char>,
) -> Result<
    (Option<Seq<char>>, Option<Seq<(Seq<char>, Option<Seq<char>>)>>),
    Seq<char>,
>;

/// A member of a JSON object: its name, and a text within it.
#[derive(Debug, Clone, PartialEq, Eq)]
pub struct Member {
    pub name: String,
    pub value: Option<String>,
}

/// The members of a list.
pub open spec fn members(list: Seq<Member>) -> Seq<(Seq<char>, Option<Seq<char>>)> {
    Seq::new(list.len(), |i: int| (list[i].name@, maybe(list[i].value)))
}

/// What was read in a JSON object.
pub open spec fn read_json(r: Result<(Option<String>, Option<Vec<Member>>), String>) -> Result<
    (Option<Seq<char>>, Option<Seq<(Seq<char>, Option<Seq<char>>)>>),
    Seq<char>,
> {
    match r {
        Ok((text, Some(list))) => Ok((maybe(text), Some(members(list@)))),
        Ok((text, None)) => Ok((maybe(text), None)),
        Err(reason) => Err(reason@),
    }
}

/// `serde_json::from_slice`, with `Value::get`, `Value::as_str`,
/// `Value::as_object` and `Map::iter` on what it gives: the string that is the
/// value of `key` in the object that the bytes write; and the members of the
/// object that is the value of `list`, in the map's order, each with the string
/// that is the value of `inner` in it. Either is nothing where the bytes write
/// something else there. Or the parser's message, where they write no JSON.
/// What comes back depends on the bytes and the three keys alone.
#[verifier::external_body]
fn json(bytes: &[u8], key: &str, list: &str, inner: &str) -> (r: Result<
    (Option<String>, Option<Vec<Member>>),
    String,
>)
    ensures
        read_json(r) == json_at(bytes@, key@, list@, inner@),
{
    let text = |v: &serde_json::Value, k: &str| v.get(k).and_then(|v| v.as_str()).map(str::to_string);
    let whole = serde_json::from_slice::<serde_json::Value>(bytes).map_err(|e| e.to_string())?;
    let found = whole.get(list).and_then(|found| found.as_object());
    let found = found.map(
        |map| map.iter().map(|(name, v)| Member { name: name.clone(), value: text(v, inner) }).collect(),
    );
    Ok((text(&whole, key), found))
}

/// One stream on offer: a quality's name, and the playlist it plays from.
#[derive(Debug, Clone, PartialEq, Eq)]
pub struct Offer {
    pub name: String,
    pub url: String,
}

/// The offers of a list.
pub open spec fn offers(list: Seq<Offer>) -> Seq<(Seq<char>, Seq<char>)> {
    Seq::new(list.len(), |i: int| (list[i].name@, list[i].url@))
}

/// The offers that the members of an answer make. One that names no playlist
/// has an empty one.
pub open spec fn offered(list: Seq<(Seq<char>, Option<Seq<char>>)>) -> Seq<(Seq<char>, Seq<char>)> {
    Seq::new(
        list.len(),
        |i: int|
            (
                list[i].0,
                match list[i].1 {
                    Some(url) => url,
                    None => Seq::empty(),
                },
            ),
    )
}

/// What the error and the streams of an answer come to: nothing playable is an
/// empty list, any other error is an error, and no streams are none.
pub open spec fn answered(
    error: Option<Seq<char>>,
    streams: Option<Seq<(Seq<char>, Option<Seq<char>>)>>,
) -> Result<Seq<(Seq<char>, Seq<char>)>, Seq<char>> {
    match (error, streams) {
        (Some(error), _) => if text::occurs(error, "No playable streams"@) {
            Ok(Seq::empty())
        } else {
            Err(error)
        },
        (None, Some(list)) => Ok(offered(list)),
        (None, None) => Ok(Seq::empty()),
    }
}

/// What a list of offers, or a reason, says.
pub open spec fn told(r: Result<Vec<Offer>, String>) -> Result<
    Seq<(Seq<char>, Seq<char>)>,
    Seq<char>,
> {
    match r {
        Ok(list) => Ok(offers(list@)),
        Err(reason) => Err(reason@),
    }
}

/// The streams that an answer offers, from the error it carries and the
/// members of its `streams`.
pub fn streams_in(error: Option<String>, streams: Option<Vec<Member>>) -> (r: Result<
    Vec<Offer>,
    String,
>)
    ensures
        told(r) == answered(
            maybe(error),
            match streams {
                Some(list) => Some(members(list@)),
                None => None,
            },
        ),
{
    let mut out: Vec<Offer> = Vec::new();
    assert(offers(out@) =~= Seq::<(Seq<char>, Seq<char>)>::empty());
    if let Some(error) = error {
        if text::mentions(error.as_str(), "No playable streams") {
            return Ok(out);
        }
        return Err(error);
    }
    if let Some(list) = streams {
        let ghost all = members(list@);
        let mut i: usize = 0;
        while i < list.len()
            invariant
                all == members(list@),
                i <= list@.len(),
                out@.len() == i,
                offers(out@) == offered(all.take(i as int)),
            decreases list.len() - i,
        {
            let url = match &list[i].value {
                Some(url) => url.clone(),
                None => String::new(),
            };
            let ghost held = out@;
            out.push(Offer { name: list[i].name.clone(), url });
            proof {
                let now = all.take(i + 1);
                assert(now[i as int] == (list@[i as int].name@, maybe(list@[i as int].value)));
                assert forall|k: int| 0 <= k < out@.len() implies offers(out@)[k] == offered(
                    now,
                )[k] by {
                    if k < i {
                        assert(offers(held)[k] == offered(all.take(i as int))[k]);
                    }
                }
                assert(offers(out@) =~= offered(now));
            }
            i += 1;
        }
        assert(all.take(i as int) =~= all);
    }
    Ok(out)
}

/// What a `--json` answer comes to.
pub open spec fn streams_told(bytes: Seq<u8>) -> Result<Seq<(Seq<char>, Seq<char>)>, Seq<char>> {
    match json_at(bytes, "error"@, "streams"@, "url"@) {
        Err(reason) => Err("streamlink returned unreadable JSON: "@ + reason),
        Ok((error, streams)) => answered(error, streams),
    }
}

/// Every stream that a `--json` answer offers, or the error it carries
/// instead.
pub fn streams_from_json(bytes: &[u8]) -> (r: Result<Vec<Offer>, String>)
    ensures
        told(r) == streams_told(bytes@),
{
    match json(bytes, "error", "streams", "url") {
        Ok((error, streams)) => streams_in(error, streams),
        Err(reason) => Err(text::concat2("streamlink returned unreadable JSON: ", reason.as_str())),
    }
}

// ── Choosing ─────────────────────────────────────────────────────────

/// The height that a name writes, or -1 where it writes none.
pub open spec fn height_of(name: Seq<char>) -> int {
    match quality::named(name) {
        Some(q) => q.height as int,
        None => -1,
    }
}

/// The names of one height, in the order they are in.
pub open spec fn of_height(names: Seq<Seq<char>>, height: int) -> Seq<Seq<char>>
    decreases names.len(),
{
    if names.len() == 0 {
        Seq::empty()
    } else if height_of(names.last()) == height {
        of_height(names.drop_last(), height).push(names.last())
    } else {
        of_height(names.drop_last(), height)
    }
}

/// Whether `menu` is the names in `available` that write a resolution, highest
/// first, and those of one height in the order they came.
pub open spec fn is_menu(available: Seq<Seq<char>>, menu: Seq<Seq<char>>) -> bool {
    &&& forall|i: int| 0 <= i < menu.len() ==> height_of(#[trigger] menu[i]) >= 0
    &&& forall|i: int, j: int|
        0 <= i < j < menu.len() ==> height_of(#[trigger] menu[i]) >= height_of(#[trigger] menu[j])
    &&& forall|height: int|
        height >= 0 ==> #[trigger] of_height(menu, height) == of_height(available, height)
}

proof fn lemma_of_height_joins(a: Seq<Seq<char>>, b: Seq<Seq<char>>, height: int)
    ensures
        of_height(a + b, height) == of_height(a, height) + of_height(b, height),
    decreases b.len(),
{
    if b.len() == 0 {
        assert(a + b =~= a);
        assert(of_height(a, height) + of_height(b, height) =~= of_height(a, height));
    } else {
        lemma_of_height_joins(a, b.drop_last(), height);
        assert((a + b).drop_last() =~= a + b.drop_last());
        assert(of_height(a + b, height) =~= of_height(a, height) + of_height(b, height));
    }
}

proof fn lemma_of_height_none(a: Seq<Seq<char>>, height: int)
    requires
        forall|i: int| 0 <= i < a.len() ==> height_of(#[trigger] a[i]) != height,
    ensures
        of_height(a, height) =~= Seq::<Seq<char>>::empty(),
    decreases a.len(),
{
    if a.len() > 0 {
        let b = a.drop_last();
        assert forall|i: int| 0 <= i < b.len() implies height_of(#[trigger] b[i]) != height by {
            assert(height_of(a[i]) != height);
        }
        lemma_of_height_none(b, height);
        assert(height_of(a[a.len() - 1]) != height);
    }
}

/// Putting a name behind every name that is at least as high, and before every
/// name that is lower, keeps the names of each height in their order.
proof fn lemma_insert(menu: Seq<Seq<char>>, at: int, name: Seq<char>, height: int)
    requires
        0 <= at <= menu.len(),
        forall|i: int| at <= i < menu.len() ==> height_of(#[trigger] menu[i]) < height_of(name),
    ensures
        of_height(menu.insert(at, name), height) == (if height_of(name) == height {
            of_height(menu, height).push(name)
        } else {
            of_height(menu, height)
        }),
{
    let front = menu.take(at);
    let back = menu.skip(at);
    let one = seq![name];
    assert(menu =~= front + back);
    assert(menu.insert(at, name) =~= front + one + back);
    lemma_of_height_joins(front, back, height);
    lemma_of_height_joins(front + one, back, height);
    lemma_of_height_joins(front, one, height);
    reveal_with_fuel(of_height, 2);
    assert(one.drop_last() =~= Seq::<Seq<char>>::empty());
    if height_of(name) == height {
        assert forall|i: int| 0 <= i < back.len() implies height_of(#[trigger] back[i]) != height by {
            assert(back[i] == menu[at + i]);
        }
        lemma_of_height_none(back, height);
        assert(of_height(menu.insert(at, name), height) =~= of_height(menu, height).push(name));
    } else {
        assert(of_height(one, height) =~= Seq::<Seq<char>>::empty());
        assert(of_height(menu.insert(at, name), height) =~= of_height(menu, height));
    }
}

/// Only real resolutions, highest first; "best", "worst" and "audio_only" are
/// aliases and would just be duplicates in a menu.
pub fn playable_names(available: &[String]) -> (r: Vec<String>)
    ensures
        is_menu(text::texts(available@), text::texts(r@)),
{
    let ghost all = text::texts(available@);
    let mut menu: Vec<String> = Vec::new();
    let mut heights: Vec<u32> = Vec::new();
    let mut i: usize = 0;
    while i < available.len()
        invariant
            all == text::texts(available@),
            i <= available@.len(),
            heights@.len() == menu@.len(),
            forall|k: int|
                0 <= k < menu@.len() ==> height_of(#[trigger] text::texts(menu@)[k])
                    == heights@[k],
            is_menu(all.take(i as int), text::texts(menu@)),
        decreases available.len() - i,
    {
        let ghost now = all.take(i + 1);
        let ghost before = text::texts(menu@);
        proof {
            assert(now.drop_last() =~= all.take(i as int));
            assert(now.last() == available@[i as int]@);
        }
        if let Some(q) = quality::parse_quality(available[i].as_str()) {
            let mut at: usize = menu.len();
            while at > 0 && heights[at - 1] < q.height
                invariant
                    at <= menu@.len(),
                    heights@.len() == menu@.len(),
                    before == text::texts(menu@),
                    forall|k: int|
                        0 <= k < menu@.len() ==> height_of(#[trigger] before[k]) == heights@[k],
                    forall|k: int| at <= k < menu@.len() ==> heights@[k] < q.height,
                decreases at,
            {
                at -= 1;
            }
            let ghost name = available@[i as int]@;
            let ghost lower = heights@;
            menu.insert(at, available[i].clone());
            heights.insert(at, q.height);
            proof {
                let after = text::texts(menu@);
                assert(after =~= before.insert(at as int, name));
                assert forall|k: int| 0 <= k < after.len() implies height_of(#[trigger] after[k])
                    == heights@[k] by {
                    if k < at {
                        assert(after[k] == before[k]);
                    } else if k > at {
                        assert(after[k] == before[k - 1]);
                    }
                }
                assert forall|a: int, b: int| 0 <= a < b < after.len() implies height_of(
                    #[trigger] after[a],
                ) >= height_of(#[trigger] after[b]) by {
                    if b < at {
                        assert(height_of(before[a]) >= height_of(before[b]));
                    } else if a > at {
                        assert(height_of(before[a - 1]) >= height_of(before[b - 1]));
                    } else if a < at && b > at {
                        assert(height_of(before[a]) >= height_of(before[b - 1]));
                    } else if b == at {
                        assert(height_of(before[at - 1]) == lower[at - 1]);
                        if a < at - 1 {
                            assert(height_of(before[a]) >= height_of(before[at - 1]));
                        }
                    } else {
                        assert(height_of(before[b - 1]) == lower[b - 1]);
                    }
                }
                assert forall|height: int| height >= 0 implies #[trigger] of_height(after, height)
                    == of_height(now, height) by {
                    assert forall|k: int| at <= k < before.len() implies height_of(
                        #[trigger] before[k],
                    ) < height_of(name) by {
                        assert(lower[k] < q.height);
                    }
                    lemma_insert(before, at as int, name, height);
                }
            }
        }
        i += 1;
    }
    assert(all.take(i as int) =~= all);
    menu
}

/// What [`choose_quality`] answers.
pub open spec fn chosen(
    available: Seq<Seq<char>>,
    preference: Option<Seq<char>>,
    pane: int,
    r: Option<quality::QualityView>,
) -> bool {
    match preference {
        Some(preference) => quality::preferred(available, preference, pane, r),
        None => quality::selected(available, pane, r),
    }
}

/// The quality to play, from what is on offer, the saved preference and the
/// pane's size.
pub fn choose_quality(available: &[String], options: &StreamOptions, pane_height: u32) -> (r: Option<Quality>)
    ensures
        chosen(
            text::texts(available@),
            maybe(options.quality),
            pane_height as int,
            quality::seen(r),
        ),
{
    match &options.quality {
        Some(preference) => quality::select_named(available, preference.as_str(), pane_height),
        None => quality::select(available, pane_height),
    }
}

/// A choice is made whenever any resolution is on offer, whatever the
/// preference.
pub proof fn law_something_is_chosen(
    available: Seq<Seq<char>>,
    preference: Option<Seq<char>>,
    pane: int,
    r: Option<quality::QualityView>,
)
    requires
        chosen(available, preference, pane, r),
    ensures
        r is Some <==> quality::offers_any(available),
        r is Some ==> available.contains(r->Some_0.name),
{
    if let Some(p) = preference {
        quality::law_a_preference_never_fails(available, p, pane, r);
    }
    if let Some(q) = r {
        assert(quality::offers(available, q));
        let i = choose|i: int|
            0 <= i < available.len() && quality::named(#[trigger] available[i]) == Some(q);
        assert(available[i] == q.name);
        assert(quality::named(available[i]) is Some);
    }
}

/// What streamlink is sent as a token: the one from the settings, or the one
/// from the environment where the settings have none; and nothing that is
/// empty.
pub proof fn law_the_settings_token_counts_first(
    own: Seq<char>,
    other: Option<Seq<char>>,
    environment: Seq<char>,
)
    ensures
        own.len() > 0 ==> token_of(Some(own), other) == Some(own),
        environment.len() > 0 ==> token_of(None, Some(environment)) == Some(environment),
        token_of(None, None) is None,
        token_of(Some(Seq::empty()), other) is None,
        token_of(None, Some(Seq::empty())) is None,
{
}

/// The arguments name what is to be played behind everything else, and for a
/// serving run the quality behind that; the token goes along exactly where
/// there is one; a probe asks for JSON; and a relay is on this machine alone,
/// at the port it was given.
pub proof fn law_the_arguments_say_what_is_played(
    port: u16,
    target: Seq<char>,
    token: Option<Seq<char>>,
    quality: Seq<char>,
)
    ensures
        ({
            let probe = probe_args_of(target, token);
            let serve = serve_args_of(port, target, token, quality);
            &&& probe[0] == "--json"@
            &&& probe.last() == target
            &&& serve.last() == quality
            &&& serve[serve.len() - 2] == target
            &&& serve[0] == "--player-external-http"@
            &&& serve[1] == "--player-external-http-port"@
            &&& serve[2] == text::decimal(port as nat)
            &&& serve[3] == "--player-external-http-interface"@
            &&& serve[4] == "127.0.0.1"@
            &&& serve[5] == "--twitch-low-latency"@
            &&& serve[6] == "--twitch-supported-codecs"@
            &&& token is Some ==> serve.len() == 12 && serve[8] == "--twitch-api-header"@
                && serve[9] == "Authorization=OAuth "@ + token->0 && probe.len() == 6 && probe[4]
                == "Authorization=OAuth "@ + token->0
            &&& token is None ==> serve.len() == 10 && probe.len() == 4
        }),
{
}

/// A place that the environment names is the only one that is tried.
pub proof fn law_a_named_place_is_the_only_one(path: Seq<char>, windows: bool)
    ensures
        places(Some(path), windows) == seq![path],
        places(None, windows).len() > 1,
        places(None, windows)[0] == "streamlink"@,
{
}

/// An answer that nothing can be played is no error, and offers nothing; any
/// other error is told as it is; and what is offered is offered under its own
/// name with its own playlist, in order, and nothing left out.
pub proof fn law_an_answer_offers_what_it_lists(
    error: Seq<char>,
    streams: Option<Seq<(Seq<char>, Option<Seq<char>>)>>,
    list: Seq<(Seq<char>, Option<Seq<char>>)>,
    i: int,
)
    requires
        0 <= i < list.len(),
    ensures
        text::occurs(error, "No playable streams"@) ==> answered(Some(error), streams) is Ok
            && answered(Some(error), streams)->Ok_0.len() == 0,
        !text::occurs(error, "No playable streams"@) ==> answered(Some(error), streams) == Err::<
            Seq<(Seq<char>, Seq<char>)>,
            Seq<char>,
        >(error),
        answered(None, None) is Ok && answered(None, None)->Ok_0.len() == 0,
        answered(None, Some(list)) is Ok,
        answered(None, Some(list))->Ok_0.len() == list.len(),
        answered(None, Some(list))->Ok_0[i].0 == list[i].0,
        list[i].1 is Some ==> answered(None, Some(list))->Ok_0[i].1 == list[i].1->0,
        list[i].1 is None ==> answered(None, Some(list))->Ok_0[i].1.len() == 0,
{
}

proof fn lemma_of_height_holds(names: Seq<Seq<char>>, height: int, name: Seq<char>)
    ensures
        of_height(names, height).contains(name) <==> names.contains(name) && height_of(name)
            == height,
    decreases names.len(),
{
    if names.len() > 0 {
        let rest = names.drop_last();
        lemma_of_height_holds(rest, height, name);
        let before = of_height(rest, height);
        let all = of_height(names, height);
        if names.contains(name) && height_of(name) == height {
            let k = choose|k: int| 0 <= k < names.len() && names[k] == name;
            if k < rest.len() {
                assert(rest[k] == name);
                let j = choose|j: int| 0 <= j < before.len() && before[j] == name;
                assert(all[j] == name);
            } else {
                assert(all.last() == name);
            }
        }
        if all.contains(name) {
            let j = choose|j: int| 0 <= j < all.len() && all[j] == name;
            if j < before.len() {
                assert(before[j] == name);
                let k = choose|k: int| 0 <= k < rest.len() && rest[k] == name;
                assert(names[k] == name);
            } else {
                assert(names[names.len() - 1] == name);
            }
        }
    }
}

/// A menu lists every name that writes a resolution and no other, the tallest
/// first.
pub proof fn law_a_menu_lists_each_resolution(
    available: Seq<Seq<char>>,
    menu: Seq<Seq<char>>,
    name: Seq<char>,
    i: int,
    j: int,
)
    requires
        is_menu(available, menu),
        0 <= i < j < menu.len(),
    ensures
        menu.contains(name) <==> available.contains(name) && quality::named(name) is Some,
        quality::named(menu[i]) is Some && quality::named(menu[j]) is Some,
        quality::named(menu[i])->0.height >= quality::named(menu[j])->0.height,
{
    assert(height_of(menu[i]) >= 0 && height_of(menu[j]) >= 0);
    let height = height_of(name);
    lemma_of_height_holds(available, height, name);
    lemma_of_height_holds(menu, height, name);
    if menu.contains(name) {
        let k = choose|k: int| 0 <= k < menu.len() && menu[k] == name;
        assert(height_of(menu[k]) >= 0);
    }
    if height >= 0 {
        assert(of_height(menu, height) == of_height(available, height));
    }
}

/// What is chosen is by the preference where there is one, and by the pane where
/// there is none.
pub proof fn law_the_preference_comes_before_the_pane(
    available: Seq<Seq<char>>,
    preference: Seq<char>,
    pane: int,
    q: quality::QualityView,
)
    ensures
        chosen(available, None, pane, Some(q)) ==> quality::best_for(available, pane, q),
        chosen(available, Some(preference), pane, Some(q)) ==> quality::preferred(
            available,
            preference,
            pane,
            Some(q),
        ),
{
}

/// Every codec that can be decoded is asked for, with a token or without one,
/// and what is asked for stands last.
pub proof fn law_every_codec_is_asked_for(target: Seq<char>, token: Option<Seq<char>>)
    ensures
        ({
            let args = shared_args(target, token);
            &&& args[0] == "--twitch-supported-codecs"@
            &&& args[1] == "h264,h265,av1"@
            &&& args.last() == target
            &&& args.len() == (if token is Some {
                5int
            } else {
                3
            })
        }),
{
}

} // verus!
