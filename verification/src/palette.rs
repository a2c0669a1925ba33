//! The command palette: what it offers for what was typed.
//!
//! It filters what the app already knows: who is live, who is followed, what
//! is open, and what it can do.

use crate::helix::{FollowedChannel, LiveStream};
use crate::target;
use crate::target::Target;
use crate::text;
use vstd::prelude::*;
use vstd::slice::*;
use vstd::string::*;

verus! {

/// Something the palette can do.
#[derive(Debug, Clone, PartialEq, Eq)]
pub enum Command {
    /// Watch this channel, closing whatever else is open.
    Watch(String),
    /// Open it beside what is already playing.
    Add(String),
    /// Close the pane at this index.
    Close(usize),
    /// Look at a channel's past broadcasts.
    Videos { login: String, display_name: String, user_id: Option<String> },
    /// Play a recording named by its id, from `start_secs` in if that is said.
    OpenVideo { id: String, start_secs: Option<u64> },
    GoBrowse,
    GoWatch,
    StopAll,
    ToggleSidebar,
    ToggleSettings,
    Refresh,
}

/// One row: what it does, and what it says it does.
#[derive(Debug, Clone, PartialEq, Eq)]
pub struct Entry {
    pub command: Command,
    /// What the row is about: a channel's name, or the verb itself.
    pub title: String,
    /// The kind of thing it is.
    pub kind: String,
}

/// A [`Command`] with its texts as sequences.
pub enum CommandView {
    Watch(Seq<char>),
    Add(Seq<char>),
    Close(usize),
    Videos { login: Seq<char>, display_name: Seq<char>, user_id: Option<Seq<char>> },
    OpenVideo { id: Seq<char>, start_secs: Option<u64> },
    GoBrowse,
    GoWatch,
    StopAll,
    ToggleSidebar,
    ToggleSettings,
    Refresh,
}

/// An [`Entry`] with its texts as sequences.
pub struct EntryView {
    pub command: CommandView,
    pub title: Seq<char>,
    pub kind: Seq<char>,
}

impl View for Command {
    type V = CommandView;

    open spec fn view(&self) -> CommandView {
        match *self {
            Command::Watch(login) => CommandView::Watch(login@),
            Command::Add(login) => CommandView::Add(login@),
            Command::Close(index) => CommandView::Close(index),
            Command::Videos { login, display_name, user_id } => CommandView::Videos {
                login: login@,
                display_name: display_name@,
                user_id: match user_id {
                    Some(id) => Some(id@),
                    None => None,
                },
            },
            Command::OpenVideo { id, start_secs } => CommandView::OpenVideo {
                id: id@,
                start_secs,
            },
            Command::GoBrowse => CommandView::GoBrowse,
            Command::GoWatch => CommandView::GoWatch,
            Command::StopAll => CommandView::StopAll,
            Command::ToggleSidebar => CommandView::ToggleSidebar,
            Command::ToggleSettings => CommandView::ToggleSettings,
            Command::Refresh => CommandView::Refresh,
        }
    }
}

impl View for Entry {
    type V = EntryView;

    open spec fn view(&self) -> EntryView {
        EntryView { command: self.command@, title: self.title@, kind: self.kind@ }
    }
}

/// The rows of a list of entries.
pub open spec fn rows(list: Seq<Entry>) -> Seq<EntryView> {
    Seq::new(list.len(), |i: int| list[i]@)
}

// ── Matching ─────────────────────────────────────────────────────────

/// The lower case of a character, as Unicode maps it. It may be several.
pub uninterp spec fn lowercase(c: char) -> Seq<char>;

/// `char::to_lowercase` of std: the mapping of Unicode, which leaves a
/// character without one alone, and which on ASCII is the small letter.
#[verifier::external_body]
fn lowercase_of(c: char) -> (r: Vec<char>)
    ensures
        r@ == lowercase(c),
        (c as u32) < 128 ==> r@ == seq![text::lower(c)],
{
    c.to_lowercase().collect()
}

/// A text in lower case.
pub open spec fn folded(s: Seq<char>) -> Seq<char>
    decreases s.len(),
{
    if s.len() == 0 {
        Seq::empty()
    } else {
        folded(s.drop_last()) + lowercase(s.last())
    }
}

/// Whether the characters of `needle` stand in `haystack` in that order, with
/// anything between them.
pub open spec fn subsequence(haystack: Seq<char>, needle: Seq<char>) -> bool
    decreases haystack.len(),
{
    if needle.len() == 0 {
        true
    } else if haystack.len() == 0 {
        false
    } else if haystack[0] == needle[0] {
        subsequence(haystack.drop_first(), needle.drop_first())
    } else {
        subsequence(haystack.drop_first(), needle)
    }
}

/// Whether a name answers to what was typed.
pub open spec fn found(haystack: Seq<char>, needle: Seq<char>) -> bool {
    subsequence(folded(haystack), folded(needle))
}

/// Whether a text is ASCII alone.
pub open spec fn is_ascii(s: Seq<char>) -> bool {
    forall|i: int| 0 <= i < s.len() ==> 128 > #[trigger] s[i] as u32
}

fn fold(s: &str) -> (r: Vec<char>)
    ensures
        r@ == folded(s@),
        is_ascii(s@) ==> r@ == text::lower_text(s@),
{
    let chars = text::chars_of(s);
    let mut out: Vec<char> = Vec::new();
    let mut i: usize = 0;
    while i < chars.len()
        invariant
            chars@ == s@,
            i <= chars@.len(),
            out@ == folded(chars@.take(i as int)),
            is_ascii(s@) ==> out@ == text::lower_text(chars@.take(i as int)),
        decreases chars.len() - i,
    {
        let mut small = lowercase_of(chars[i]);
        let ghost one = small@;
        let ghost held = out@;
        out.append(&mut small);
        proof {
            if is_ascii(s@) {
                assert((s@[i as int] as u32) < 128);
                assert(held + one =~= text::lower_text(chars@.take(i + 1)));
            }
            assert(chars@.take(i + 1).drop_last() =~= chars@.take(i as int));
            assert(chars@.take(i + 1).last() == chars@[i as int]);
        }
        i += 1;
    }
    assert(chars@.take(i as int) =~= chars@);
    out
}

/// Case-insensitive subsequence match, which is what makes `qb` find
/// `QuickyBaby`.
pub fn matches(haystack: &str, needle: &str) -> (r: bool)
    ensures
        r == found(haystack@, needle@),
        is_ascii(haystack@) && is_ascii(needle@) ==> r == subsequence(
            text::lower_text(haystack@),
            text::lower_text(needle@),
        ),
{
    let h = fold(haystack);
    let n = fold(needle);
    let mut i: usize = 0;
    let mut j: usize = 0;
    assert(h@.skip(0) =~= h@);
    assert(n@.skip(0) =~= n@);
    while i < h.len() && j < n.len()
        invariant
            i <= h@.len(),
            j <= n@.len(),
            subsequence(h@.skip(i as int), n@.skip(j as int)) == subsequence(h@, n@),
        decreases h.len() - i,
    {
        proof {
            assert(h@.skip(i as int).drop_first() =~= h@.skip(i + 1));
            assert(n@.skip(j as int).drop_first() =~= n@.skip(j + 1));
        }
        if h[i] == n[j] {
            j += 1;
        }
        i += 1;
    }
    j == n.len()
}

// ── What is offered ──────────────────────────────────────────────────

/// How many recently watched channels an empty palette leads with.
pub const RECENT_SHOWN: usize = 5;

/// A row to open a channel, and beside it one to add it, where adding it would
/// be something else than opening it.
pub open spec fn offer_rows(
    login: Seq<char>,
    title: Seq<char>,
    kind: Seq<char>,
    watching: Seq<Seq<char>>,
    can_add: bool,
) -> Seq<EntryView> {
    let open = watching.contains(login);
    let watch = seq![
        EntryView {
            command: CommandView::Watch(login),
            title,
            kind: if open {
                "watching"@
            } else {
                kind
            },
        },
    ];
    if can_add && !open && watching.len() > 0 {
        watch.push(
            EntryView {
                command: CommandView::Add(login),
                title: title + " — add a pane"@,
                kind: "add"@,
            },
        )
    } else {
        watch
    }
}

/// Whether either name of a channel answers to what was typed.
pub open spec fn either_found(name: Seq<char>, login: Seq<char>, query: Seq<char>) -> bool {
    found(name, query) || found(login, query)
}

/// The name of the first live channel with this login.
pub open spec fn live_name(login: Seq<char>, follows: Seq<LiveStream>) -> Option<Seq<char>>
    decreases follows.len(),
{
    if follows.len() == 0 {
        None
    } else if follows[0].user_login@ == login {
        Some(follows[0].display_name@)
    } else {
        live_name(login, follows.drop_first())
    }
}

/// The name of the first followed channel with this login.
pub open spec fn followed_name(login: Seq<char>, offline: Seq<FollowedChannel>) -> Option<Seq<char>>
    decreases offline.len(),
{
    if offline.len() == 0 {
        None
    } else if offline[0].login@ == login {
        Some(offline[0].display_name@)
    } else {
        followed_name(login, offline.drop_first())
    }
}

/// The name a channel writes itself as, when any list knows it.
pub open spec fn name_of(
    login: Seq<char>,
    follows: Seq<LiveStream>,
    offline: Seq<FollowedChannel>,
) -> Seq<char> {
    match live_name(login, follows) {
        Some(name) => name,
        None => match followed_name(login, offline) {
            Some(name) => name,
            None => login,
        },
    }
}

/// The channels that an empty palette leads with.
pub open spec fn led_with(query: Seq<char>, recent: Seq<Seq<char>>) -> Seq<Seq<char>> {
    if query.len() > 0 {
        Seq::empty()
    } else if recent.len() <= RECENT_SHOWN {
        recent
    } else {
        recent.take(RECENT_SHOWN as int)
    }
}

/// The rows of the channels watched last.
pub open spec fn recent_rows(
    led: Seq<Seq<char>>,
    follows: Seq<LiveStream>,
    offline: Seq<FollowedChannel>,
    watching: Seq<Seq<char>>,
    can_add: bool,
) -> Seq<EntryView>
    decreases led.len(),
{
    if led.len() == 0 {
        Seq::empty()
    } else {
        recent_rows(led.drop_last(), follows, offline, watching, can_add) + offer_rows(
            led.last(),
            name_of(led.last(), follows, offline),
            "recent"@,
            watching,
            can_add,
        )
    }
}

/// Whether a live channel gets a row.
pub open spec fn live_shown(query: Seq<char>, stream: LiveStream, led: Seq<Seq<char>>) -> bool {
    !led.contains(stream.user_login@) && either_found(
        stream.display_name@,
        stream.user_login@,
        query,
    )
}

/// The rows of the live channels, in the order the list is in.
pub open spec fn live_rows(
    query: Seq<char>,
    follows: Seq<LiveStream>,
    led: Seq<Seq<char>>,
    watching: Seq<Seq<char>>,
    can_add: bool,
) -> Seq<EntryView>
    decreases follows.len(),
{
    if follows.len() == 0 {
        Seq::empty()
    } else {
        let before = live_rows(query, follows.drop_last(), led, watching, can_add);
        let stream = follows.last();
        if live_shown(query, stream, led) {
            before + offer_rows(
                stream.user_login@,
                stream.display_name@,
                "watch"@,
                watching,
                can_add,
            )
        } else {
            before
        }
    }
}

/// The rows of the channels that are followed and not live.
pub open spec fn offline_rows(query: Seq<char>, offline: Seq<FollowedChannel>) -> Seq<EntryView>
    decreases offline.len(),
{
    if offline.len() == 0 {
        Seq::empty()
    } else {
        let before = offline_rows(query, offline.drop_last());
        let channel = offline.last();
        if either_found(channel.display_name@, channel.login@, query) {
            before.push(
                EntryView {
                    command: CommandView::Watch(channel.login@),
                    title: channel.display_name@,
                    kind: "offline"@,
                },
            )
        } else {
            before
        }
    }
}

/// The row of a channel's past broadcasts.
pub open spec fn past_row(
    login: Seq<char>,
    display_name: Seq<char>,
    user_id: Option<Seq<char>>,
) -> EntryView {
    EntryView {
        command: CommandView::Videos { login, display_name, user_id },
        title: display_name + " — past broadcasts"@,
        kind: "videos"@,
    }
}

/// An id, where there is one.
pub open spec fn some_id(id: Seq<char>) -> Option<Seq<char>> {
    if id.len() > 0 {
        Some(id)
    } else {
        None
    }
}

/// The past broadcasts of the live channels.
pub open spec fn live_past_rows(query: Seq<char>, follows: Seq<LiveStream>) -> Seq<EntryView>
    decreases follows.len(),
{
    if follows.len() == 0 {
        Seq::empty()
    } else {
        let before = live_past_rows(query, follows.drop_last());
        let s = follows.last();
        if either_found(s.display_name@, s.user_login@, query) {
            before.push(past_row(s.user_login@, s.display_name@, some_id(s.user_id@)))
        } else {
            before
        }
    }
}

/// The past broadcasts of the channels that are not live.
pub open spec fn offline_past_rows(query: Seq<char>, offline: Seq<FollowedChannel>) -> Seq<
    EntryView,
>
    decreases offline.len(),
{
    if offline.len() == 0 {
        Seq::empty()
    } else {
        let before = offline_past_rows(query, offline.drop_last());
        let c = offline.last();
        if either_found(c.display_name@, c.login@, query) {
            before.push(past_row(c.login@, c.display_name@, some_id(c.user_id@)))
        } else {
            before
        }
    }
}

/// Whether what was typed is narrowing the follows rather than naming
/// something else.
pub open spec fn follow_matches(
    query: Seq<char>,
    follows: Seq<LiveStream>,
    offline: Seq<FollowedChannel>,
) -> bool {
    ||| exists|i: int|
        0 <= i < follows.len() && either_found(
            (#[trigger] follows[i]).display_name@,
            follows[i].user_login@,
            query,
        )
    ||| exists|i: int|
        0 <= i < offline.len() && either_found(
            (#[trigger] offline[i]).display_name@,
            offline[i].login@,
            query,
        )
}

/// The rows of what was typed, taken at its word: a name once it narrows no
/// list any more, and a link, which no name can hold, in any case.
pub open spec fn typed_rows(
    query: Seq<char>,
    matched: bool,
    watching: Seq<Seq<char>>,
    can_add: bool,
) -> Seq<EntryView> {
    match target::reading(query) {
        Some(target::TargetView::Channel(login)) => if matched && !query.contains('/') {
            Seq::empty()
        } else {
            offer_rows(login, "Open "@ + login, "channel"@, watching, can_add).push(
                past_row(login, login, None),
            )
        },
        Some(target::TargetView::Video { id, start_secs }) => seq![
            EntryView {
                command: CommandView::OpenVideo { id, start_secs },
                title: "Open recording "@ + id,
                kind: "recording"@,
            },
        ],
        None => Seq::empty(),
    }
}

/// The rows that close the open panes.
pub open spec fn close_rows(query: Seq<char>, watching: Seq<Seq<char>>) -> Seq<EntryView>
    decreases watching.len(),
{
    if watching.len() == 0 {
        Seq::empty()
    } else {
        let before = close_rows(query, watching.drop_last());
        let title = "Close "@ + watching.last();
        if found(title, query) {
            before.push(
                EntryView {
                    command: CommandView::Close((watching.len() - 1) as usize),
                    title,
                    kind: "pane"@,
                },
            )
        } else {
            before
        }
    }
}

/// The row of one of the app's own commands, where its title answers.
pub open spec fn command_row(query: Seq<char>, command: CommandView, title: Seq<char>) -> Seq<
    EntryView,
> {
    if found(title, query) {
        seq![EntryView { command, title, kind: "command"@ }]
    } else {
        Seq::empty()
    }
}

/// The rows of the app's own commands.
pub open spec fn command_rows(query: Seq<char>) -> Seq<EntryView> {
    command_row(query, CommandView::GoBrowse, "Go to follows"@) + command_row(
        query,
        CommandView::GoWatch,
        "Back to watching"@,
    ) + command_row(query, CommandView::StopAll, "Stop all streams"@) + command_row(
        query,
        CommandView::ToggleSidebar,
        "Toggle the follows rail"@,
    ) + command_row(query, CommandView::Refresh, "Refresh this list"@) + command_row(
        query,
        CommandView::ToggleSettings,
        "Settings"@,
    )
}

/// The rows that open or look at a channel or a recording.
pub open spec fn channel_rows(
    query: Seq<char>,
    follows: Seq<LiveStream>,
    offline: Seq<FollowedChannel>,
    recent: Seq<Seq<char>>,
    watching: Seq<Seq<char>>,
    can_add: bool,
) -> Seq<EntryView> {
    let led = led_with(query, recent);
    let now = recent_rows(led, follows, offline, watching, can_add) + live_rows(
        query,
        follows,
        led,
        watching,
        can_add,
    );
    if query.len() == 0 {
        now
    } else {
        now + offline_rows(query, offline) + live_past_rows(query, follows) + offline_past_rows(
            query,
            offline,
        ) + typed_rows(query, follow_matches(query, follows, offline), watching, can_add)
    }
}

/// Everything the palette offers: channels, then panes to close, then the
/// app's own commands.
pub open spec fn offered(
    query: Seq<char>,
    follows: Seq<LiveStream>,
    offline: Seq<FollowedChannel>,
    recent: Seq<Seq<char>>,
    watching: Seq<Seq<char>>,
    can_add: bool,
) -> Seq<EntryView> {
    channel_rows(query, follows, offline, recent, watching, can_add) + close_rows(query, watching)
        + command_rows(query)
}

fn own(s: &str) -> (r: String)
    ensures
        r@ == s@,
{
    s.to_owned()
}

fn push_row(out: &mut Vec<Entry>, command: Command, title: String, kind: &str)
    ensures
        rows(final(out)@) == rows(old(out)@).push(
            EntryView { command: command@, title: title@, kind: kind@ },
        ),
{
    out.push(Entry { command, title, kind: own(kind) });
    assert(rows(out@) =~= rows(old(out)@).push(
        EntryView { command: command@, title: title@, kind: kind@ },
    ));
}

fn offer(
    out: &mut Vec<Entry>,
    login: &str,
    title: &str,
    kind: &str,
    watching: &[String],
    can_add: bool,
)
    ensures
        rows(final(out)@) == rows(old(out)@) + offer_rows(
            login@,
            title@,
            kind@,
            text::texts(watching@),
            can_add,
        ),
{
    let open = text::listed(watching, login);
    push_row(
        out,
        Command::Watch(own(login)),
        own(title),
        if open {
            "watching"
        } else {
            kind
        },
    );
    if can_add && !open && watching.len() > 0 {
        push_row(out, Command::Add(own(login)), text::concat2(title, " — add a pane"), "add");
    }
    assert(rows(out@) =~= rows(old(out)@) + offer_rows(
        login@,
        title@,
        kind@,
        text::texts(watching@),
        can_add,
    ));
}

fn display_name(login: &str, follows: &[LiveStream], offline: &[FollowedChannel]) -> (r: String)
    ensures
        r@ == name_of(login@, follows@, offline@),
{
    let mut i: usize = 0;
    assert(follows@.skip(0) =~= follows@);
    while i < follows.len()
        invariant
            i <= follows@.len(),
            live_name(login@, follows@.skip(i as int)) == live_name(login@, follows@),
        decreases follows.len() - i,
    {
        assert(follows@.skip(i as int).drop_first() =~= follows@.skip(i + 1));
        if text::same(follows[i].user_login.as_str(), login) {
            return follows[i].display_name.clone();
        }
        i += 1;
    }
    let mut k: usize = 0;
    assert(offline@.skip(0) =~= offline@);
    while k < offline.len()
        invariant
            live_name(login@, follows@) is None,
            k <= offline@.len(),
            followed_name(login@, offline@.skip(k as int)) == followed_name(login@, offline@),
        decreases offline.len() - k,
    {
        assert(offline@.skip(k as int).drop_first() =~= offline@.skip(k + 1));
        if text::same(offline[k].login.as_str(), login) {
            return offline[k].display_name.clone();
        }
        k += 1;
    }
    own(login)
}

fn either_matches(name: &str, login: &str, query: &str) -> (r: bool)
    ensures
        r == either_found(name@, login@, query@),
{
    matches(name, query) || matches(login, query)
}

fn push_recent(
    out: &mut Vec<Entry>,
    led: &[String],
    follows: &[LiveStream],
    offline: &[FollowedChannel],
    watching: &[String],
    can_add: bool,
)
    ensures
        rows(final(out)@) == rows(old(out)@) + recent_rows(
            text::texts(led@),
            follows@,
            offline@,
            text::texts(watching@),
            can_add,
        ),
{
    let ghost all = text::texts(led@);
    let mut i: usize = 0;
    assert(all.take(0) =~= Seq::<Seq<char>>::empty());
    assert(rows(out@) =~= rows(old(out)@) + recent_rows(
        all.take(0),
        follows@,
        offline@,
        text::texts(watching@),
        can_add,
    ));
    while i < led.len()
        invariant
            all == text::texts(led@),
            i <= led@.len(),
            rows(out@) == rows(old(out)@) + recent_rows(
                all.take(i as int),
                follows@,
                offline@,
                text::texts(watching@),
                can_add,
            ),
        decreases led.len() - i,
    {
        let login = led[i].as_str();
        let name = display_name(login, follows, offline);
        let ghost held = rows(out@);
        offer(out, login, name.as_str(), "recent", watching, can_add);
        proof {
            assert(all.take(i + 1).drop_last() =~= all.take(i as int));
            assert(all.take(i + 1).last() == login@);
            assert(rows(out@) =~= rows(old(out)@) + recent_rows(
                all.take(i + 1),
                follows@,
                offline@,
                text::texts(watching@),
                can_add,
            ));
        }
        i += 1;
    }
    assert(all.take(i as int) =~= all);
}

fn push_live(
    out: &mut Vec<Entry>,
    query: &str,
    follows: &[LiveStream],
    led: &[String],
    watching: &[String],
    can_add: bool,
)
    ensures
        rows(final(out)@) == rows(old(out)@) + live_rows(
            query@,
            follows@,
            text::texts(led@),
            text::texts(watching@),
            can_add,
        ),
{
    let ghost l = text::texts(led@);
    let ghost w = text::texts(watching@);
    let mut i: usize = 0;
    assert(rows(out@) =~= rows(old(out)@) + live_rows(query@, follows@.take(0), l, w, can_add));
    while i < follows.len()
        invariant
            l == text::texts(led@),
            w == text::texts(watching@),
            i <= follows@.len(),
            rows(out@) == rows(old(out)@) + live_rows(
                query@,
                follows@.take(i as int),
                l,
                w,
                can_add,
            ),
        decreases follows.len() - i,
    {
        let stream = &follows[i];
        proof {
            assert(follows@.take(i + 1).drop_last() =~= follows@.take(i as int));
            assert(follows@.take(i + 1).last() == stream);
        }
        if !text::listed(led, stream.user_login.as_str()) && either_matches(
            stream.display_name.as_str(),
            stream.user_login.as_str(),
            query,
        ) {
            offer(
                out,
                stream.user_login.as_str(),
                stream.display_name.as_str(),
                "watch",
                watching,
                can_add,
            );
        }
        assert(rows(out@) =~= rows(old(out)@) + live_rows(
            query@,
            follows@.take(i + 1),
            l,
            w,
            can_add,
        ));
        i += 1;
    }
    assert(follows@.take(i as int) =~= follows@);
}

fn push_offline(out: &mut Vec<Entry>, query: &str, offline: &[FollowedChannel])
    ensures
        rows(final(out)@) == rows(old(out)@) + offline_rows(query@, offline@),
{
    let mut i: usize = 0;
    assert(rows(out@) =~= rows(old(out)@) + offline_rows(query@, offline@.take(0)));
    while i < offline.len()
        invariant
            i <= offline@.len(),
            rows(out@) == rows(old(out)@) + offline_rows(query@, offline@.take(i as int)),
        decreases offline.len() - i,
    {
        let channel = &offline[i];
        proof {
            assert(offline@.take(i + 1).drop_last() =~= offline@.take(i as int));
            assert(offline@.take(i + 1).last() == channel);
        }
        if either_matches(channel.display_name.as_str(), channel.login.as_str(), query) {
            push_row(
                out,
                Command::Watch(channel.login.clone()),
                channel.display_name.clone(),
                "offline",
            );
        }
        assert(rows(out@) =~= rows(old(out)@) + offline_rows(query@, offline@.take(i + 1)));
        i += 1;
    }
    assert(offline@.take(i as int) =~= offline@);
}

fn push_past(out: &mut Vec<Entry>, login: &str, display_name: &str, user_id: Option<String>)
    ensures
        rows(final(out)@) == rows(old(out)@).push(
            past_row(
                login@,
                display_name@,
                match user_id {
                    Some(id) => Some(id@),
                    None => None,
                },
            ),
        ),
{
    let title = text::concat2(display_name, " — past broadcasts");
    push_row(
        out,
        Command::Videos { login: own(login), display_name: own(display_name), user_id },
        title,
        "videos",
    );
}

fn known_id(id: &String) -> (r: Option<String>)
    ensures
        (match r {
            Some(s) => some_id(id@) == Some(s@),
            None => some_id(id@) is None,
        }),
{
    if id.as_str().is_empty() {
        None
    } else {
        Some(id.clone())
    }
}

fn push_live_past(out: &mut Vec<Entry>, query: &str, follows: &[LiveStream])
    ensures
        rows(final(out)@) == rows(old(out)@) + live_past_rows(query@, follows@),
{
    let mut i: usize = 0;
    assert(rows(out@) =~= rows(old(out)@) + live_past_rows(query@, follows@.take(0)));
    while i < follows.len()
        invariant
            i <= follows@.len(),
            rows(out@) == rows(old(out)@) + live_past_rows(query@, follows@.take(i as int)),
        decreases follows.len() - i,
    {
        let s = &follows[i];
        proof {
            assert(follows@.take(i + 1).drop_last() =~= follows@.take(i as int));
            assert(follows@.take(i + 1).last() == s);
        }
        if either_matches(s.display_name.as_str(), s.user_login.as_str(), query) {
            push_past(
                out,
                s.user_login.as_str(),
                s.display_name.as_str(),
                known_id(&s.user_id),
            );
        }
        assert(rows(out@) =~= rows(old(out)@) + live_past_rows(query@, follows@.take(i + 1)));
        i += 1;
    }
    assert(follows@.take(i as int) =~= follows@);
}

fn push_offline_past(out: &mut Vec<Entry>, query: &str, offline: &[FollowedChannel])
    ensures
        rows(final(out)@) == rows(old(out)@) + offline_past_rows(query@, offline@),
{
    let mut i: usize = 0;
    assert(rows(out@) =~= rows(old(out)@) + offline_past_rows(query@, offline@.take(0)));
    while i < offline.len()
        invariant
            i <= offline@.len(),
            rows(out@) == rows(old(out)@) + offline_past_rows(query@, offline@.take(i as int)),
        decreases offline.len() - i,
    {
        let c = &offline[i];
        proof {
            assert(offline@.take(i + 1).drop_last() =~= offline@.take(i as int));
            assert(offline@.take(i + 1).last() == c);
        }
        if either_matches(c.display_name.as_str(), c.login.as_str(), query) {
            push_past(out, c.login.as_str(), c.display_name.as_str(), known_id(&c.user_id));
        }
        assert(rows(out@) =~= rows(old(out)@) + offline_past_rows(query@, offline@.take(i + 1)));
        i += 1;
    }
    assert(offline@.take(i as int) =~= offline@);
}

fn any_follow_matches(query: &str, follows: &[LiveStream], offline: &[FollowedChannel]) -> (r: bool)
    ensures
        r == follow_matches(query@, follows@, offline@),
{
    let mut i: usize = 0;
    while i < follows.len()
        invariant
            i <= follows@.len(),
            forall|k: int|
                0 <= k < i ==> !either_found(
                    (#[trigger] follows@[k]).display_name@,
                    follows@[k].user_login@,
                    query@,
                ),
        decreases follows.len() - i,
    {
        if either_matches(
            follows[i].display_name.as_str(),
            follows[i].user_login.as_str(),
            query,
        ) {
            assert(either_found(
                follows@[i as int].display_name@,
                follows@[i as int].user_login@,
                query@,
            ));
            return true;
        }
        i += 1;
    }
    let mut k: usize = 0;
    while k < offline.len()
        invariant
            i == follows@.len(),
            forall|n: int|
                0 <= n < i ==> !either_found(
                    (#[trigger] follows@[n]).display_name@,
                    follows@[n].user_login@,
                    query@,
                ),
            k <= offline@.len(),
            forall|n: int|
                0 <= n < k ==> !either_found(
                    (#[trigger] offline@[n]).display_name@,
                    offline@[n].login@,
                    query@,
                ),
        decreases offline.len() - k,
    {
        if either_matches(offline[k].display_name.as_str(), offline[k].login.as_str(), query) {
            assert(either_found(
                offline@[k as int].display_name@,
                offline@[k as int].login@,
                query@,
            ));
            return true;
        }
        k += 1;
    }
    false
}

/// Whether what names a channel is a link to it.
fn is_link(query: &str) -> (r: bool)
    ensures
        r == query@.contains('/'),
{
    let chars = text::chars_of(query);
    text::holds(chars.as_slice(), '/')
}

fn push_typed(
    out: &mut Vec<Entry>,
    query: &str,
    matched: bool,
    watching: &[String],
    can_add: bool,
)
    ensures
        rows(final(out)@) == rows(old(out)@) + typed_rows(
            query@,
            matched,
            text::texts(watching@),
            can_add,
        ),
{
    match target::parse(query) {
        Some(Target::Channel(login)) => {
            if !matched || is_link(query) {
                let title = text::concat2("Open ", login.as_str());
                offer(out, login.as_str(), title.as_str(), "channel", watching, can_add);
                push_past(out, login.as_str(), login.as_str(), None);
            }
        },
        Some(Target::Video { id, start_secs }) => {
            let title = text::concat2("Open recording ", id.as_str());
            push_row(out, Command::OpenVideo { id, start_secs }, title, "recording");
        },
        None => {},
    }
    assert(rows(out@) =~= rows(old(out)@) + typed_rows(
        query@,
        matched,
        text::texts(watching@),
        can_add,
    ));
}

fn push_close(out: &mut Vec<Entry>, query: &str, watching: &[String])
    ensures
        rows(final(out)@) == rows(old(out)@) + close_rows(query@, text::texts(watching@)),
{
    let ghost all = text::texts(watching@);
    let mut i: usize = 0;
    assert(rows(out@) =~= rows(old(out)@) + close_rows(query@, all.take(0)));
    while i < watching.len()
        invariant
            all == text::texts(watching@),
            i <= watching@.len(),
            rows(out@) == rows(old(out)@) + close_rows(query@, all.take(i as int)),
        decreases watching.len() - i,
    {
        let title = text::concat2("Close ", watching[i].as_str());
        proof {
            assert(all.take(i + 1).drop_last() =~= all.take(i as int));
            assert(all.take(i + 1).last() == watching@[i as int]@);
        }
        if matches(title.as_str(), query) {
            push_row(out, Command::Close(i), title, "pane");
        }
        assert(rows(out@) =~= rows(old(out)@) + close_rows(query@, all.take(i + 1)));
        i += 1;
    }
    assert(all.take(i as int) =~= all);
}

fn push_command(out: &mut Vec<Entry>, query: &str, command: Command, title: &str)
    ensures
        rows(final(out)@) == rows(old(out)@) + command_row(query@, command@, title@),
{
    if matches(title, query) {
        push_row(out, command, own(title), "command");
    }
    assert(rows(out@) =~= rows(old(out)@) + command_row(query@, command@, title@));
}

fn push_commands(out: &mut Vec<Entry>, query: &str)
    ensures
        rows(final(out)@) == rows(old(out)@) + command_rows(query@),
{
    push_command(out, query, Command::GoBrowse, "Go to follows");
    push_command(out, query, Command::GoWatch, "Back to watching");
    push_command(out, query, Command::StopAll, "Stop all streams");
    push_command(out, query, Command::ToggleSidebar, "Toggle the follows rail");
    push_command(out, query, Command::Refresh, "Refresh this list");
    push_command(out, query, Command::ToggleSettings, "Settings");
    assert(rows(out@) =~= rows(old(out)@) + command_rows(query@));
}

/// The recents and the live channels.
fn now_entries(
    query: &str,
    follows: &[LiveStream],
    offline: &[FollowedChannel],
    recent: &[String],
    watching: &[String],
    can_add: bool,
) -> (r: Vec<Entry>)
    ensures
        ({
            let led = led_with(query@, text::texts(recent@));
            let w = text::texts(watching@);
            rows(r@) == recent_rows(led, follows@, offline@, w, can_add) + live_rows(
                query@,
                follows@,
                led,
                w,
                can_add,
            )
        }),
{
    let mut out: Vec<Entry> = Vec::new();
    let led: &[String] = if !query.is_empty() {
        slice_subrange(recent, 0, 0)
    } else if recent.len() <= RECENT_SHOWN {
        recent
    } else {
        slice_subrange(recent, 0, RECENT_SHOWN)
    };
    assert(text::texts(led@) =~= led_with(query@, text::texts(recent@)));
    assert(rows(out@) =~= Seq::<EntryView>::empty());
    push_recent(&mut out, led, follows, offline, watching, can_add);
    let ghost recents = rows(out@);
    assert(Seq::<EntryView>::empty() + recents =~= recents);
    push_live(&mut out, query, follows, led, watching, can_add);
    out
}

/// Everything the palette can offer right now, filtered by `query`.
///
/// Channels come first and commands after. With nothing typed the list leads
/// with what was watched most recently, and the live follows come after it,
/// less the ones the recents already named. Offline follows and past
/// broadcasts come once something has been typed. Anything typed that reads as
/// a channel gets rows of its own once nothing followed answers to it; a link
/// to a recording is always offered.
pub fn entries(
    query: &str,
    follows: &[LiveStream],
    offline: &[FollowedChannel],
    recent: &[String],
    watching: &[String],
    can_add: bool,
) -> (r: Vec<Entry>)
    ensures
        rows(r@) == offered(
            query@,
            follows@,
            offline@,
            text::texts(recent@),
            text::texts(watching@),
            can_add,
        ),
{
    let mut out = now_entries(query, follows, offline, recent, watching, can_add);
    if !query.is_empty() {
        let matched = any_follow_matches(query, follows, offline);
        push_offline(&mut out, query, offline);
        push_live_past(&mut out, query, follows);
        push_offline_past(&mut out, query, offline);
        push_typed(&mut out, query, matched, watching, can_add);
    }
    push_close(&mut out, query, watching);
    push_commands(&mut out, query);
    out
}

// ── Laws ─────────────────────────────────────────────────────────────

/// Where each character of `needle` stands in `haystack`.
pub open spec fn placed(haystack: Seq<char>, needle: Seq<char>, at: Seq<int>) -> bool {
    &&& at.len() == needle.len()
    &&& forall|k: int|
        0 <= k < at.len() ==> 0 <= #[trigger] at[k] < haystack.len() && haystack[at[k]]
            == needle[k]
    &&& forall|j: int, k: int| 0 <= j < k < at.len() ==> at[j] < at[k]
}

/// A match is exactly a choice of places, one behind another, that spell what
/// was typed.
pub proof fn law_a_match_keeps_the_order(haystack: Seq<char>, needle: Seq<char>)
    ensures
        subsequence(haystack, needle) <==> exists|at: Seq<int>| placed(haystack, needle, at),
    decreases haystack.len(),
{
    if needle.len() == 0 {
        assert(placed(haystack, needle, Seq::<int>::empty()));
    } else if haystack.len() == 0 {
        if exists|at: Seq<int>| placed(haystack, needle, at) {
            let at = choose|at: Seq<int>| placed(haystack, needle, at);
            assert(0 <= at[0] < haystack.len());
        }
    } else {
        let h = haystack.drop_first();
        if haystack[0] == needle[0] {
            let n = needle.drop_first();
            law_a_match_keeps_the_order(h, n);
            if subsequence(haystack, needle) {
                let at = choose|at: Seq<int>| placed(h, n, at);
                let full = seq![0int] + Seq::new(at.len(), |k: int| at[k] + 1);
                assert(placed(haystack, needle, full)) by {
                    assert forall|k: int| 0 <= k < full.len() implies 0 <= #[trigger] full[k]
                        < haystack.len() && haystack[full[k]] == needle[k] by {
                        if k > 0 {
                            assert(0 <= at[k - 1] < h.len());
                        }
                    }
                    assert forall|j: int, k: int| 0 <= j < k < full.len() implies full[j]
                        < full[k] by {
                        assert(0 <= at[k - 1]);
                        if j > 0 {
                            assert(at[j - 1] < at[k - 1]);
                        }
                    }
                }
            }
            if exists|at: Seq<int>| placed(haystack, needle, at) {
                let at = choose|at: Seq<int>| placed(haystack, needle, at);
                let rest = Seq::new((at.len() - 1) as nat, |k: int| at[k + 1] - 1);
                assert(placed(h, n, rest)) by {
                    assert forall|k: int| 0 <= k < rest.len() implies 0 <= #[trigger] rest[k]
                        < h.len() && h[rest[k]] == n[k] by {
                        assert(at[0] < at[k + 1]);
                        assert(0 <= at[0]);
                    }
                }
            }
        } else {
            law_a_match_keeps_the_order(h, needle);
            if subsequence(haystack, needle) {
                let at = choose|at: Seq<int>| placed(h, needle, at);
                let moved = Seq::new(at.len(), |k: int| at[k] + 1);
                assert(placed(haystack, needle, moved)) by {
                    assert forall|k: int| 0 <= k < moved.len() implies 0 <= #[trigger] moved[k]
                        < haystack.len() && haystack[moved[k]] == needle[k] by {
                        assert(0 <= at[k] < h.len());
                    }
                }
            }
            if exists|at: Seq<int>| placed(haystack, needle, at) {
                let at = choose|at: Seq<int>| placed(haystack, needle, at);
                let moved = Seq::new(at.len(), |k: int| at[k] - 1);
                assert(haystack[at[0]] == needle[0]);
                assert(placed(h, needle, moved)) by {
                    assert forall|k: int| 0 <= k < moved.len() implies 0 <= #[trigger] moved[k]
                        < h.len() && h[moved[k]] == needle[k] by {
                        if k > 0 {
                            assert(at[0] < at[k]);
                        }
                        assert(0 <= at[0]);
                    }
                }
            }
        }
    }
}

/// Nothing typed answers to everything, and a name answers to itself.
pub proof fn law_everything_answers_to_nothing_typed(name: Seq<char>)
    ensures
        found(name, Seq::empty()),
        found(name, name),
{
    lemma_text_holds_itself(folded(name));
}

proof fn lemma_text_holds_itself(s: Seq<char>)
    ensures
        subsequence(s, s),
    decreases s.len(),
{
    if s.len() > 0 {
        lemma_text_holds_itself(s.drop_first());
    }
}

/// One of the app's own commands, rather than a channel or a pane.
pub open spec fn is_app_command(command: CommandView) -> bool {
    ||| command is GoBrowse
    ||| command is GoWatch
    ||| command is StopAll
    ||| command is ToggleSidebar
    ||| command is ToggleSettings
    ||| command is Refresh
}

/// A row about a channel or a recording.
pub open spec fn is_channel_command(command: CommandView) -> bool {
    ||| command is Watch
    ||| command is Add
    ||| command is Videos
    ||| command is OpenVideo
}

/// What one row of the palette may be, given what is open: `Add` only beside
/// something else, `Close` only on a pane there is, and past broadcasts and
/// recordings only once something has been typed.
pub open spec fn row_fits(
    row: EntryView,
    query: Seq<char>,
    watching: Seq<Seq<char>>,
    can_add: bool,
) -> bool {
    match row.command {
        CommandView::Add(login) => can_add && watching.len() > 0 && !watching.contains(login),
        CommandView::Videos { .. } | CommandView::OpenVideo { .. } => query.len() > 0,
        CommandView::Close(index) => index < watching.len() && row.title == "Close "@
            + watching[index as int],
        _ => true,
    }
}

proof fn lemma_channel_rows_are_channels(
    query: Seq<char>,
    follows: Seq<LiveStream>,
    offline: Seq<FollowedChannel>,
    led: Seq<Seq<char>>,
    watching: Seq<Seq<char>>,
    can_add: bool,
)
    ensures
        forall|i: int|
            0 <= i < recent_rows(led, follows, offline, watching, can_add).len() ==> {
                let row = #[trigger] recent_rows(led, follows, offline, watching, can_add)[i];
                is_channel_command(row.command) && row_fits(row, query, watching, can_add)
            },
        forall|i: int|
            0 <= i < live_rows(query, follows, led, watching, can_add).len() ==> {
                let row = #[trigger] live_rows(query, follows, led, watching, can_add)[i];
                is_channel_command(row.command) && row_fits(row, query, watching, can_add)
            },
        forall|i: int|
            0 <= i < offline_rows(query, offline).len() ==> {
                let row = #[trigger] offline_rows(query, offline)[i];
                is_channel_command(row.command) && row_fits(row, query, watching, can_add)
            },
        query.len() > 0 ==> forall|i: int|
            0 <= i < live_past_rows(query, follows).len() ==> {
                let row = #[trigger] live_past_rows(query, follows)[i];
                is_channel_command(row.command) && row_fits(row, query, watching, can_add)
            },
        query.len() > 0 ==> forall|i: int|
            0 <= i < offline_past_rows(query, offline).len() ==> {
                let row = #[trigger] offline_past_rows(query, offline)[i];
                is_channel_command(row.command) && row_fits(row, query, watching, can_add)
            },
    decreases led.len() + follows.len() + offline.len(),
{
    if led.len() > 0 {
        lemma_channel_rows_are_channels(
            query,
            follows,
            offline,
            led.drop_last(),
            watching,
            can_add,
        );
    }
    if follows.len() > 0 {
        lemma_channel_rows_are_channels(
            query,
            follows.drop_last(),
            offline,
            led,
            watching,
            can_add,
        );
    }
    if offline.len() > 0 {
        lemma_channel_rows_are_channels(
            query,
            follows,
            offline.drop_last(),
            led,
            watching,
            can_add,
        );
    }
}

proof fn lemma_close_rows_are_panes(query: Seq<char>, watching: Seq<Seq<char>>)
    requires
        watching.len() <= usize::MAX,
    ensures
        forall|i: int|
            0 <= i < close_rows(query, watching).len() ==> {
                let row = #[trigger] close_rows(query, watching)[i];
                row.command is Close && row.command->Close_0 < watching.len() && row.title
                    == "Close "@ + watching[row.command->Close_0 as int]
            },
        forall|k: int|
            0 <= k < watching.len() && found("Close "@ + #[trigger] watching[k], query)
                ==> exists|i: int|
                0 <= i < close_rows(query, watching).len() && (#[trigger] close_rows(
                    query,
                    watching,
                )[i]).command == CommandView::Close(k as usize),
    decreases watching.len(),
{
    if watching.len() > 0 {
        let w = watching.drop_last();
        lemma_close_rows_are_panes(query, w);
        let before = close_rows(query, w);
        let all = close_rows(query, watching);
        assert forall|i: int| 0 <= i < all.len() implies {
            let row = #[trigger] all[i];
            row.command is Close && row.command->Close_0 < watching.len() && row.title
                == "Close "@ + watching[row.command->Close_0 as int]
        } by {
            if i < before.len() {
                assert(all[i] == before[i]);
                assert(w[before[i].command->Close_0 as int]
                    == watching[before[i].command->Close_0 as int]);
            }
        }
        assert forall|k: int|
            0 <= k < watching.len() && found("Close "@ + #[trigger] watching[k], query) implies exists|
            i: int,
        |
            0 <= i < all.len() && (#[trigger] all[i]).command == CommandView::Close(k as usize) by {
            if k < w.len() {
                assert(w[k] == watching[k]);
                let i = choose|i: int|
                    0 <= i < before.len() && (#[trigger] before[i]).command == CommandView::Close(
                        k as usize,
                    );
                assert(all[i] == before[i]);
            } else {
                assert(all[all.len() - 1].command == CommandView::Close(k as usize));
            }
        }
    }
}

/// Channels come first, then the panes that can be closed, then the app's own
/// commands: a channel is never below a pane, and neither is below a command.
/// A channel is offered to be added only beside something else and only where
/// it is not open yet, and nothing is offered of past broadcasts before
/// something is typed.
pub proof fn law_channels_come_before_commands(
    query: Seq<char>,
    follows: Seq<LiveStream>,
    offline: Seq<FollowedChannel>,
    recent: Seq<Seq<char>>,
    watching: Seq<Seq<char>>,
    can_add: bool,
)
    requires
        watching.len() <= usize::MAX,
    ensures
        ({
            let all = offered(query, follows, offline, recent, watching, can_add);
            &&& forall|i: int, j: int|
                0 <= i < j < all.len() && is_app_command((#[trigger] all[i]).command)
                    ==> is_app_command((#[trigger] all[j]).command)
            &&& forall|i: int, j: int|
                0 <= i < j < all.len() && is_channel_command((#[trigger] all[j]).command)
                    ==> is_channel_command((#[trigger] all[i]).command)
            &&& forall|i: int|
                0 <= i < all.len() ==> row_fits(#[trigger] all[i], query, watching, can_add)
        }),
{
    let led = led_with(query, recent);
    let channels = channel_rows(query, follows, offline, recent, watching, can_add);
    let panes = close_rows(query, watching);
    let own = command_rows(query);
    lemma_channel_rows_are_channels(query, follows, offline, led, watching, can_add);
    lemma_close_rows_are_panes(query, watching);
    assert forall|i: int| 0 <= i < channels.len() implies is_channel_command(
        (#[trigger] channels[i]).command,
    ) && row_fits(channels[i], query, watching, can_add) by {
        let a = recent_rows(led, follows, offline, watching, can_add);
        let b = live_rows(query, follows, led, watching, can_add);
        if i < a.len() {
            assert(channels[i] == a[i]);
        } else if i < a.len() + b.len() {
            assert(channels[i] == b[i - a.len()]);
        } else {
            let c = offline_rows(query, offline);
            let d = live_past_rows(query, follows);
            let e = offline_past_rows(query, offline);
            let n = a.len() + b.len();
            if i < n + c.len() {
                assert(channels[i] == c[i - n]);
            } else if i < n + c.len() + d.len() {
                assert(channels[i] == d[i - n - c.len()]);
            } else if i < n + c.len() + d.len() + e.len() {
                assert(channels[i] == e[i - n - c.len() - d.len()]);
            }
        }
    }
    assert forall|i: int| 0 <= i < own.len() implies is_app_command((#[trigger] own[i]).command) by {
    }
    let all = offered(query, follows, offline, recent, watching, can_add);
    assert forall|i: int| 0 <= i < all.len() implies {
        &&& row_fits(#[trigger] all[i], query, watching, can_add)
        &&& i < channels.len() ==> is_channel_command(all[i].command)
        &&& channels.len() <= i < channels.len() + panes.len() ==> all[i].command is Close
        &&& channels.len() + panes.len() <= i ==> is_app_command(all[i].command)
    } by {
        if i < channels.len() {
            assert(all[i] == channels[i]);
        } else if i < channels.len() + panes.len() {
            assert(all[i] == panes[i - channels.len()]);
        } else {
            assert(all[i] == own[i - channels.len() - panes.len()]);
        }
    }
}

/// Every open pane whose "Close" answers to what was typed can be closed by a
/// row, and with nothing typed that is every one of them.
pub proof fn law_every_open_pane_can_be_closed(
    query: Seq<char>,
    follows: Seq<LiveStream>,
    offline: Seq<FollowedChannel>,
    recent: Seq<Seq<char>>,
    watching: Seq<Seq<char>>,
    can_add: bool,
    pane: int,
)
    requires
        watching.len() <= usize::MAX,
        0 <= pane < watching.len(),
        query.len() == 0 || found("Close "@ + watching[pane], query),
    ensures
        exists|i: int|
            0 <= i < offered(query, follows, offline, recent, watching, can_add).len()
                && (#[trigger] offered(query, follows, offline, recent, watching, can_add)[i]).command
                == CommandView::Close(pane as usize),
{
    if query.len() == 0 {
        assert(query =~= Seq::<char>::empty());
        law_everything_answers_to_nothing_typed("Close "@ + watching[pane]);
    }
    lemma_close_rows_are_panes(query, watching);
    let panes = close_rows(query, watching);
    let i = choose|i: int|
        0 <= i < panes.len() && (#[trigger] panes[i]).command == CommandView::Close(pane as usize);
    let channels = channel_rows(query, follows, offline, recent, watching, can_add);
    let all = offered(query, follows, offline, recent, watching, can_add);
    assert(all[channels.len() + i] == panes[i]);
}

/// What was typed can be opened where it names a recording or is a link to a
/// channel, whoever's name answers to it too, and where it names a channel and
/// no follow answers.
pub proof fn law_a_link_is_always_offered(
    query: Seq<char>,
    follows: Seq<LiveStream>,
    offline: Seq<FollowedChannel>,
    recent: Seq<Seq<char>>,
    watching: Seq<Seq<char>>,
    can_add: bool,
)
    ensures
        ({
            let all = offered(query, follows, offline, recent, watching, can_add);
            match target::reading(query) {
                Some(target::TargetView::Channel(login)) => query.contains('/') || !follow_matches(
                    query,
                    follows,
                    offline,
                ) ==> exists|i: int|
                    0 <= i < all.len() && (#[trigger] all[i]).command == CommandView::Watch(login),
                Some(target::TargetView::Video { id, start_secs }) => exists|i: int|
                    0 <= i < all.len() && (#[trigger] all[i]).command == (CommandView::OpenVideo {
                        id,
                        start_secs,
                    }),
                None => true,
            }
        }),
{
    if target::reading(query) is Some {
        if query.len() == 0 {
            target::law_nothing_names_nothing(query);
        }
        let matched = follow_matches(query, follows, offline);
        let typed = typed_rows(query, matched, watching, can_add);
        let channels = channel_rows(query, follows, offline, recent, watching, can_add);
        let all = offered(query, follows, offline, recent, watching, can_add);
        if typed.len() > 0 {
            assert(all[channels.len() - typed.len()] == typed[0]);
        }
    }
}

/// Whether no two rows open the same channel.
pub open spec fn opens_each_once(list: Seq<EntryView>) -> bool {
    forall|i: int, j: int|
        0 <= i < j < list.len() && (#[trigger] list[i]).command is Watch && (
        #[trigger] list[j]).command is Watch ==> list[i].command != list[j].command
}

/// The logins of a list of live channels.
pub open spec fn logins(follows: Seq<LiveStream>) -> Seq<Seq<char>> {
    Seq::new(follows.len(), |i: int| follows[i].user_login@)
}

proof fn lemma_recent_once(
    led: Seq<Seq<char>>,
    follows: Seq<LiveStream>,
    offline: Seq<FollowedChannel>,
    watching: Seq<Seq<char>>,
    can_add: bool,
)
    requires
        led.no_duplicates(),
    ensures
        opens_each_once(recent_rows(led, follows, offline, watching, can_add)),
        forall|i: int|
            0 <= i < recent_rows(led, follows, offline, watching, can_add).len() && (
            #[trigger] recent_rows(led, follows, offline, watching, can_add)[i]).command is Watch
                ==> led.contains(
                recent_rows(led, follows, offline, watching, can_add)[i].command->Watch_0,
            ),
    decreases led.len(),
{
    if led.len() > 0 {
        let l = led.drop_last();
        lemma_recent_once(l, follows, offline, watching, can_add);
        let before = recent_rows(l, follows, offline, watching, can_add);
        let all = recent_rows(led, follows, offline, watching, can_add);
        assert forall|i: int| 0 <= i < all.len() && (#[trigger] all[i]).command is Watch implies {
            &&& led.contains(all[i].command->Watch_0)
            &&& i < before.len() ==> all[i].command->Watch_0 != led.last()
            &&& i >= before.len() ==> i == before.len() && all[i].command->Watch_0 == led.last()
        } by {
            if i < before.len() {
                assert(all[i] == before[i]);
                let k = choose|k: int| 0 <= k < l.len() && l[k] == all[i].command->Watch_0;
                assert(led[k] == all[i].command->Watch_0);
            } else {
                assert(led[led.len() - 1] == all[i].command->Watch_0);
            }
        }
        assert forall|i: int, j: int|
            0 <= i < j < all.len() && (#[trigger] all[i]).command is Watch && (
            #[trigger] all[j]).command is Watch implies all[i].command != all[j].command by {
            if j < before.len() {
                assert(before[i].command != before[j].command);
            }
        }
    }
}

proof fn lemma_live_once(
    query: Seq<char>,
    follows: Seq<LiveStream>,
    led: Seq<Seq<char>>,
    watching: Seq<Seq<char>>,
    can_add: bool,
)
    requires
        logins(follows).no_duplicates(),
    ensures
        opens_each_once(live_rows(query, follows, led, watching, can_add)),
        forall|i: int|
            0 <= i < live_rows(query, follows, led, watching, can_add).len() && (
            #[trigger] live_rows(query, follows, led, watching, can_add)[i]).command is Watch ==> {
                let login = live_rows(query, follows, led, watching, can_add)[i].command->Watch_0;
                logins(follows).contains(login) && !led.contains(login)
            },
    decreases follows.len(),
{
    if follows.len() > 0 {
        let f = follows.drop_last();
        assert(logins(f) =~= logins(follows).drop_last());
        lemma_live_once(query, f, led, watching, can_add);
        let before = live_rows(query, f, led, watching, can_add);
        let all = live_rows(query, follows, led, watching, can_add);
        let last = follows.last().user_login@;
        assert(logins(follows)[follows.len() - 1] == last);
        assert forall|i: int| 0 <= i < all.len() && (#[trigger] all[i]).command is Watch implies {
            &&& logins(follows).contains(all[i].command->Watch_0)
            &&& !led.contains(all[i].command->Watch_0)
            &&& i < before.len() ==> all[i].command->Watch_0 != last
            &&& i >= before.len() ==> i == before.len() && all[i].command->Watch_0 == last
        } by {
            if i < before.len() {
                assert(all[i] == before[i]);
                let k = choose|k: int|
                    0 <= k < logins(f).len() && logins(f)[k] == all[i].command->Watch_0;
                assert(logins(follows)[k] == all[i].command->Watch_0);
            }
        }
        assert forall|i: int, j: int|
            0 <= i < j < all.len() && (#[trigger] all[i]).command is Watch && (
            #[trigger] all[j]).command is Watch implies all[i].command != all[j].command by {
            if j < before.len() {
                assert(before[i].command != before[j].command);
            }
        }
    }
}

/// With nothing typed, a channel that is both recent and live is one row, not
/// two: no channel is opened by two rows.
pub proof fn law_an_empty_palette_opens_each_channel_once(
    follows: Seq<LiveStream>,
    offline: Seq<FollowedChannel>,
    recent: Seq<Seq<char>>,
    watching: Seq<Seq<char>>,
    can_add: bool,
)
    requires
        recent.no_duplicates(),
        logins(follows).no_duplicates(),
        watching.len() <= usize::MAX,
    ensures
        opens_each_once(offered(Seq::empty(), follows, offline, recent, watching, can_add)),
{
    let query = Seq::<char>::empty();
    let led = led_with(query, recent);
    assert(led.no_duplicates());
    lemma_recent_once(led, follows, offline, watching, can_add);
    lemma_live_once(query, follows, led, watching, can_add);
    lemma_close_rows_are_panes(query, watching);
    let a = recent_rows(led, follows, offline, watching, can_add);
    let b = live_rows(query, follows, led, watching, can_add);
    let panes = close_rows(query, watching);
    let own = command_rows(query);
    let all = offered(query, follows, offline, recent, watching, can_add);
    assert forall|i: int| 0 <= i < all.len() && (#[trigger] all[i]).command is Watch implies {
        &&& i < a.len() + b.len()
        &&& i < a.len() ==> all[i] == a[i]
        &&& i >= a.len() ==> all[i] == b[i - a.len()]
    } by {
        let n = a.len() + b.len();
        if i >= n {
            if i < n + panes.len() {
                assert(all[i] == panes[i - n]);
            } else {
                assert(all[i] == own[i - n - panes.len()]);
                assert(is_app_command(all[i].command));
            }
        }
    }
    assert forall|i: int, j: int|
        0 <= i < j < all.len() && (#[trigger] all[i]).command is Watch && (
        #[trigger] all[j]).command is Watch implies all[i].command != all[j].command by {
        if j < a.len() {
            assert(a[i].command != a[j].command);
        } else if i >= a.len() {
            assert(b[i - a.len()].command != b[j - a.len()].command);
        } else {
            assert(led.contains(a[i].command->Watch_0));
            assert(!led.contains(b[j - a.len()].command->Watch_0));
        }
    }
}

// ── What answers to what was typed ───────────────────────────────────

/// Whether somebody of this login is live and answers to what was typed, by
/// name or by login.
pub open spec fn live_answers(query: Seq<char>, follows: Seq<LiveStream>, login: Seq<char>) -> bool {
    exists|j: int|
        0 <= j < follows.len() && (#[trigger] follows[j]).user_login@ == login && (found(
            follows[j].display_name@,
            query,
        ) || found(login, query))
}

/// The same of somebody who is not live.
pub open spec fn offline_answers(
    query: Seq<char>,
    offline: Seq<FollowedChannel>,
    login: Seq<char>,
) -> bool {
    exists|j: int|
        0 <= j < offline.len() && (#[trigger] offline[j]).login@ == login && (found(
            offline[j].display_name@,
            query,
        ) || found(login, query))
}

proof fn lemma_live_rows_answer(
    query: Seq<char>,
    follows: Seq<LiveStream>,
    led: Seq<Seq<char>>,
    watching: Seq<Seq<char>>,
    can_add: bool,
)
    ensures
        forall|i: int|
            0 <= i < live_rows(query, follows, led, watching, can_add).len() ==> {
                let row = #[trigger] live_rows(query, follows, led, watching, can_add)[i];
                match row.command {
                    CommandView::Watch(login) => live_answers(query, follows, login)
                        && !led.contains(login),
                    CommandView::Add(login) => live_answers(query, follows, login)
                        && !led.contains(login),
                    _ => false,
                }
            },
    decreases follows.len(),
{
    if follows.len() > 0 {
        let f = follows.drop_last();
        lemma_live_rows_answer(query, f, led, watching, can_add);
        let before = live_rows(query, f, led, watching, can_add);
        let all = live_rows(query, follows, led, watching, can_add);
        let last = follows[follows.len() - 1];
        assert forall|i: int| 0 <= i < all.len() implies {
            let row = #[trigger] all[i];
            match row.command {
                CommandView::Watch(login) => live_answers(query, follows, login) && !led.contains(
                    login,
                ),
                CommandView::Add(login) => live_answers(query, follows, login) && !led.contains(
                    login,
                ),
                _ => false,
            }
        } by {
            if i < before.len() {
                assert(all[i] == before[i]);
                let login = match before[i].command {
                    CommandView::Watch(login) => login,
                    CommandView::Add(login) => login,
                    _ => query,
                };
                let j = choose|j: int|
                    0 <= j < f.len() && (#[trigger] f[j]).user_login@ == login && (found(
                        f[j].display_name@,
                        query,
                    ) || found(login, query));
                assert(follows[j] == f[j]);
            } else {
                assert(live_answers(query, follows, last.user_login@));
            }
        }
    }
}

proof fn lemma_live_rows_are_there(
    query: Seq<char>,
    follows: Seq<LiveStream>,
    led: Seq<Seq<char>>,
    watching: Seq<Seq<char>>,
    can_add: bool,
    j: int,
) -> (i: int)
    requires
        0 <= j < follows.len(),
        found(follows[j].display_name@, query) || found(follows[j].user_login@, query),
        !led.contains(follows[j].user_login@),
    ensures
        0 <= i < live_rows(query, follows, led, watching, can_add).len(),
        ({
            let rows = live_rows(query, follows, led, watching, can_add);
            let login = follows[j].user_login@;
            let adds = can_add && watching.len() > 0 && !watching.contains(login);
            &&& rows[i].command == CommandView::Watch(login)
            &&& rows[i].title == follows[j].display_name@
            &&& rows[i].kind == (if watching.contains(login) {
                "watching"@
            } else {
                "watch"@
            })
            &&& adds ==> i + 1 < rows.len() && rows[i + 1].command == CommandView::Add(login)
        }),
    decreases follows.len(),
{
    let f = follows.drop_last();
    let before = live_rows(query, f, led, watching, can_add);
    let rows = live_rows(query, follows, led, watching, can_add);
    if j == follows.len() - 1 {
        before.len() as int
    } else {
        assert(f[j] == follows[j]);
        let i = lemma_live_rows_are_there(query, f, led, watching, can_add, j);
        assert(rows[i] == before[i]);
        if i + 1 < before.len() {
            assert(rows[i + 1] == before[i + 1]);
        }
        i
    }
}

proof fn lemma_offline_rows_answer(query: Seq<char>, offline: Seq<FollowedChannel>)
    ensures
        forall|i: int|
            0 <= i < offline_rows(query, offline).len() ==> {
                let row = #[trigger] offline_rows(query, offline)[i];
                row.command is Watch && offline_answers(query, offline, row.command->Watch_0)
            },
        forall|i: int|
            0 <= i < offline_past_rows(query, offline).len() ==> {
                let row = #[trigger] offline_past_rows(query, offline)[i];
                row.command is Videos && offline_answers(query, offline, row.command->login)
            },
    decreases offline.len(),
{
    if offline.len() > 0 {
        let f = offline.drop_last();
        lemma_offline_rows_answer(query, f);
        let last = offline[offline.len() - 1];
        assert forall|login: Seq<char>| #[trigger]
            offline_answers(query, f, login) implies offline_answers(query, offline, login) by {
            let j = choose|j: int|
                0 <= j < f.len() && (#[trigger] f[j]).login@ == login && (found(
                    f[j].display_name@,
                    query,
                ) || found(login, query));
            assert(offline[j] == f[j]);
        }
        let before = offline_rows(query, f);
        let all = offline_rows(query, offline);
        assert forall|i: int| 0 <= i < all.len() implies {
            let row = #[trigger] all[i];
            row.command is Watch && offline_answers(query, offline, row.command->Watch_0)
        } by {
            if i < before.len() {
                assert(all[i] == before[i]);
            } else {
                assert(offline_answers(query, offline, last.login@));
            }
        }
        let before = offline_past_rows(query, f);
        let all = offline_past_rows(query, offline);
        assert forall|i: int| 0 <= i < all.len() implies {
            let row = #[trigger] all[i];
            row.command is Videos && offline_answers(query, offline, row.command->login)
        } by {
            if i < before.len() {
                assert(all[i] == before[i]);
            } else {
                assert(offline_answers(query, offline, last.login@));
            }
        }
    }
}

proof fn lemma_offline_rows_are_there(query: Seq<char>, offline: Seq<FollowedChannel>, j: int) -> (r: (
    int,
    int,
))
    requires
        0 <= j < offline.len(),
        found(offline[j].display_name@, query) || found(offline[j].login@, query),
    ensures
        0 <= r.0 < offline_rows(query, offline).len(),
        offline_rows(query, offline)[r.0].command == CommandView::Watch(offline[j].login@),
        offline_rows(query, offline)[r.0].title == offline[j].display_name@,
        offline_rows(query, offline)[r.0].kind == "offline"@,
        0 <= r.1 < offline_past_rows(query, offline).len(),
        ({
            let row = offline_past_rows(query, offline)[r.1];
            &&& row.command is Videos
            &&& row.command->login == offline[j].login@
            &&& row.command->display_name == offline[j].display_name@
            &&& row.command->user_id == (if offline[j].user_id@.len() == 0 {
                None
            } else {
                Some(offline[j].user_id@)
            })
            &&& row.title == offline[j].display_name@ + " — past broadcasts"@
        }),
    decreases offline.len(),
{
    let f = offline.drop_last();
    let a = offline_rows(query, f);
    let b = offline_past_rows(query, f);
    if j == offline.len() - 1 {
        (a.len() as int, b.len() as int)
    } else {
        assert(f[j] == offline[j]);
        let r = lemma_offline_rows_are_there(query, f, j);
        assert(offline_rows(query, offline)[r.0] == a[r.0]);
        assert(offline_past_rows(query, offline)[r.1] == b[r.1]);
        r
    }
}

proof fn lemma_live_past_rows_answer(query: Seq<char>, follows: Seq<LiveStream>)
    ensures
        forall|i: int|
            0 <= i < live_past_rows(query, follows).len() ==> {
                let row = #[trigger] live_past_rows(query, follows)[i];
                row.command is Videos && live_answers(query, follows, row.command->login)
            },
    decreases follows.len(),
{
    if follows.len() > 0 {
        let f = follows.drop_last();
        lemma_live_past_rows_answer(query, f);
        let last = follows[follows.len() - 1];
        let before = live_past_rows(query, f);
        let all = live_past_rows(query, follows);
        assert forall|i: int| 0 <= i < all.len() implies {
            let row = #[trigger] all[i];
            row.command is Videos && live_answers(query, follows, row.command->login)
        } by {
            if i < before.len() {
                assert(all[i] == before[i]);
                let login = before[i].command->login;
                let j = choose|j: int|
                    0 <= j < f.len() && (#[trigger] f[j]).user_login@ == login && (found(
                        f[j].display_name@,
                        query,
                    ) || found(login, query));
                assert(follows[j] == f[j]);
            } else {
                assert(live_answers(query, follows, last.user_login@));
            }
        }
    }
}

proof fn lemma_live_past_rows_are_there(query: Seq<char>, follows: Seq<LiveStream>, j: int) -> (i: int)
    requires
        0 <= j < follows.len(),
        found(follows[j].display_name@, query) || found(follows[j].user_login@, query),
    ensures
        0 <= i < live_past_rows(query, follows).len(),
        ({
            let row = live_past_rows(query, follows)[i];
            &&& row.command is Videos
            &&& row.command->login == follows[j].user_login@
            &&& row.command->display_name == follows[j].display_name@
            &&& row.command->user_id == (if follows[j].user_id@.len() == 0 {
                None
            } else {
                Some(follows[j].user_id@)
            })
            &&& row.title == follows[j].display_name@ + " — past broadcasts"@
        }),
    decreases follows.len(),
{
    let f = follows.drop_last();
    let before = live_past_rows(query, f);
    if j == follows.len() - 1 {
        before.len() as int
    } else {
        assert(f[j] == follows[j]);
        let i = lemma_live_past_rows_are_there(query, f, j);
        assert(live_past_rows(query, follows)[i] == before[i]);
        i
    }
}

proof fn lemma_close_rows_answer(query: Seq<char>, watching: Seq<Seq<char>>)
    ensures
        forall|i: int|
            0 <= i < close_rows(query, watching).len() ==> {
                let row = #[trigger] close_rows(query, watching)[i];
                row.command is Close && found(row.title, query)
            },
    decreases watching.len(),
{
    if watching.len() > 0 {
        lemma_close_rows_answer(query, watching.drop_last());
        let before = close_rows(query, watching.drop_last());
        let all = close_rows(query, watching);
        assert forall|i: int| 0 <= i < all.len() implies {
            let row = #[trigger] all[i];
            row.command is Close && found(row.title, query)
        } by {
            if i < before.len() {
                assert(all[i] == before[i]);
            }
        }
    }
}

/// Once something is typed, every row answers to it: whoever is opened, added
/// or looked at is followed and answers by name or by login, or is the channel
/// that was typed; a recording is the one that was typed; and the row of a pane
/// or of a command says what was typed.
pub proof fn law_every_row_answers(
    query: Seq<char>,
    follows: Seq<LiveStream>,
    offline: Seq<FollowedChannel>,
    recent: Seq<Seq<char>>,
    watching: Seq<Seq<char>>,
    can_add: bool,
    i: int,
)
    requires
        query.len() > 0,
        0 <= i < offered(query, follows, offline, recent, watching, can_add).len(),
    ensures
        ({
            let row = offered(query, follows, offline, recent, watching, can_add)[i];
            match row.command {
                CommandView::Watch(login) => live_answers(query, follows, login)
                    || offline_answers(query, offline, login) || target::reading(query) == Some(
                    target::TargetView::Channel(login),
                ),
                CommandView::Add(login) => live_answers(query, follows, login) || target::reading(
                    query,
                ) == Some(target::TargetView::Channel(login)),
                CommandView::Videos { login, .. } => live_answers(query, follows, login)
                    || offline_answers(query, offline, login) || target::reading(query) == Some(
                    target::TargetView::Channel(login),
                ),
                CommandView::OpenVideo { id, start_secs } => target::reading(query) == Some(
                    target::TargetView::Video { id, start_secs },
                ),
                _ => found(row.title, query),
            }
        }),
{
    let led = led_with(query, recent);
    lemma_live_rows_answer(query, follows, led, watching, can_add);
    lemma_offline_rows_answer(query, offline);
    lemma_live_past_rows_answer(query, follows);
    lemma_close_rows_answer(query, watching);
    let all = offered(query, follows, offline, recent, watching, can_add);
    let a = live_rows(query, follows, led, watching, can_add);
    let b = offline_rows(query, offline);
    let c = live_past_rows(query, follows);
    let d = offline_past_rows(query, offline);
    let e = typed_rows(query, follow_matches(query, follows, offline), watching, can_add);
    let f = close_rows(query, watching);
    let g = command_rows(query);
    assert(recent_rows(led, follows, offline, watching, can_add).len() == 0);
    assert(all =~= a + b + c + d + e + f + g);
    let ab = a.len() + b.len();
    let cd = ab + c.len() + d.len();
    if i < a.len() {
        assert(all[i] == a[i]);
    } else if i < ab {
        assert(all[i] == b[i - a.len()]);
    } else if i < ab + c.len() {
        assert(all[i] == c[i - ab]);
    } else if i < cd {
        assert(all[i] == d[i - ab - c.len()]);
    } else if i < cd + e.len() {
        assert(all[i] == e[i - cd]);
    } else if i < cd + e.len() + f.len() {
        assert(all[i] == f[i - cd - e.len()]);
    } else {
        assert(all[i] == g[i - cd - e.len() - f.len()]);
    }
}

/// Whether a row opens this channel under this name.
pub open spec fn opens_as(row: EntryView, login: Seq<char>, name: Seq<char>, kind: Seq<char>) -> bool {
    row.command == CommandView::Watch(login) && row.title == name && row.kind == kind
}

/// Whether a row looks at the recordings of this channel.
pub open spec fn looks_at(
    row: EntryView,
    login: Seq<char>,
    name: Seq<char>,
    user_id: Seq<char>,
) -> bool {
    &&& row.command is Videos
    &&& row.command->login == login
    &&& row.command->display_name == name
    &&& row.command->user_id == (if user_id.len() == 0 {
        None
    } else {
        Some(user_id)
    })
}

/// Once something is typed, nobody who answers to it is missing: each of the
/// live and of the others has a row that opens the channel and one that looks
/// at its recordings.
pub proof fn law_nobody_who_answers_is_missing(
    query: Seq<char>,
    follows: Seq<LiveStream>,
    offline: Seq<FollowedChannel>,
    recent: Seq<Seq<char>>,
    watching: Seq<Seq<char>>,
    can_add: bool,
)
    requires
        query.len() > 0,
    ensures
        ({
            let all = offered(query, follows, offline, recent, watching, can_add);
            &&& forall|j: int|
                0 <= j < offline.len() && (found((#[trigger] offline[j]).display_name@, query)
                    || found(offline[j].login@, query)) ==> (exists|i: int|
                    0 <= i < all.len() && opens_as(
                        #[trigger] all[i],
                        offline[j].login@,
                        offline[j].display_name@,
                        "offline"@,
                    )) && (exists|i: int|
                    0 <= i < all.len() && looks_at(
                        #[trigger] all[i],
                        offline[j].login@,
                        offline[j].display_name@,
                        offline[j].user_id@,
                    ))
            &&& forall|j: int|
                0 <= j < follows.len() && (found((#[trigger] follows[j]).display_name@, query)
                    || found(follows[j].user_login@, query)) ==> (exists|i: int|
                    0 <= i < all.len() && opens_as(
                        #[trigger] all[i],
                        follows[j].user_login@,
                        follows[j].display_name@,
                        if watching.contains(follows[j].user_login@) {
                            "watching"@
                        } else {
                            "watch"@
                        },
                    )) && (exists|i: int|
                    0 <= i < all.len() && looks_at(
                        #[trigger] all[i],
                        follows[j].user_login@,
                        follows[j].display_name@,
                        follows[j].user_id@,
                    ))
        }),
{
    let led = led_with(query, recent);
    let all = offered(query, follows, offline, recent, watching, can_add);
    let a = live_rows(query, follows, led, watching, can_add);
    let b = offline_rows(query, offline);
    let c = live_past_rows(query, follows);
    let d = offline_past_rows(query, offline);
    let e = typed_rows(query, follow_matches(query, follows, offline), watching, can_add);
    assert(recent_rows(led, follows, offline, watching, can_add).len() == 0);
    assert(all =~= a + b + c + d + e + close_rows(query, watching) + command_rows(query));
    let ab = a.len() + b.len();
    assert forall|j: int|
        0 <= j < offline.len() && (found((#[trigger] offline[j]).display_name@, query) || found(
            offline[j].login@,
            query,
        )) implies (exists|i: int|
        0 <= i < all.len() && opens_as(
            #[trigger] all[i],
            offline[j].login@,
            offline[j].display_name@,
            "offline"@,
        )) && (exists|i: int|
        0 <= i < all.len() && looks_at(
            #[trigger] all[i],
            offline[j].login@,
            offline[j].display_name@,
            offline[j].user_id@,
        )) by {
        let r = lemma_offline_rows_are_there(query, offline, j);
        assert(all[a.len() + r.0] == b[r.0]);
        assert(all[ab + c.len() + r.1] == d[r.1]);
    }
    assert forall|j: int|
        0 <= j < follows.len() && (found((#[trigger] follows[j]).display_name@, query) || found(
            follows[j].user_login@,
            query,
        )) implies (exists|i: int|
        0 <= i < all.len() && opens_as(
            #[trigger] all[i],
            follows[j].user_login@,
            follows[j].display_name@,
            if watching.contains(follows[j].user_login@) {
                "watching"@
            } else {
                "watch"@
            },
        )) && (exists|i: int|
        0 <= i < all.len() && looks_at(
            #[trigger] all[i],
            follows[j].user_login@,
            follows[j].display_name@,
            follows[j].user_id@,
        )) by {
        let i = lemma_live_rows_are_there(query, follows, led, watching, can_add, j);
        assert(all[i] == a[i]);
        let k = lemma_live_past_rows_are_there(query, follows, j);
        assert(all[ab + k] == c[k]);
    }
}

/// The title under which one of the app's own commands is offered.
pub open spec fn is_titled(command: CommandView, title: Seq<char>) -> bool {
    ||| command is GoBrowse && title == "Go to follows"@
    ||| command is GoWatch && title == "Back to watching"@
    ||| command is StopAll && title == "Stop all streams"@
    ||| command is ToggleSidebar && title == "Toggle the follows rail"@
    ||| command is Refresh && title == "Refresh this list"@
    ||| command is ToggleSettings && title == "Settings"@
}

/// Each of the app's own commands is offered exactly where its title answers.
pub proof fn law_every_command_can_be_found(
    query: Seq<char>,
    follows: Seq<LiveStream>,
    offline: Seq<FollowedChannel>,
    recent: Seq<Seq<char>>,
    watching: Seq<Seq<char>>,
    can_add: bool,
    command: CommandView,
    title: Seq<char>,
)
    requires
        is_titled(command, title),
        found(title, query),
    ensures
        exists|i: int|
            0 <= i < offered(query, follows, offline, recent, watching, can_add).len()
                && (#[trigger] offered(query, follows, offline, recent, watching, can_add)[i]).command
                == command,
{
    let own = command_rows(query);
    let all = offered(query, follows, offline, recent, watching, can_add);
    let n = all.len() - own.len();
    let a = command_row(query, CommandView::GoBrowse, "Go to follows"@);
    let b = command_row(query, CommandView::GoWatch, "Back to watching"@);
    let c = command_row(query, CommandView::StopAll, "Stop all streams"@);
    let d = command_row(query, CommandView::ToggleSidebar, "Toggle the follows rail"@);
    let e = command_row(query, CommandView::Refresh, "Refresh this list"@);
    let at = if command is GoBrowse {
        0
    } else if command is GoWatch {
        a.len() as int
    } else if command is StopAll {
        (a + b).len() as int
    } else if command is ToggleSidebar {
        (a + b + c).len() as int
    } else if command is Refresh {
        (a + b + c + d).len() as int
    } else {
        (a + b + c + d + e).len() as int
    };
    assert(own[at].command == command);
    assert(all[n + at] == own[at]);
}

proof fn lemma_recent_rows_lead(
    led: Seq<Seq<char>>,
    follows: Seq<LiveStream>,
    offline: Seq<FollowedChannel>,
    watching: Seq<Seq<char>>,
    can_add: bool,
    k: int,
) -> (i: int)
    requires
        0 <= k < led.len(),
    ensures
        k <= i < recent_rows(led, follows, offline, watching, can_add).len(),
        recent_rows(led, follows, offline, watching, can_add)[i].command == CommandView::Watch(
            led[k],
        ),
        k == 0 ==> i == 0,
    decreases led.len(),
{
    let l = led.drop_last();
    let before = recent_rows(l, follows, offline, watching, can_add);
    let all = recent_rows(led, follows, offline, watching, can_add);
    if k == led.len() - 1 {
        lemma_recent_rows_grow(l, follows, offline, watching, can_add);
        before.len() as int
    } else {
        assert(l[k] == led[k]);
        let i = lemma_recent_rows_lead(l, follows, offline, watching, can_add, k);
        assert(all[i] == before[i]);
        i
    }
}

proof fn lemma_recent_rows_grow(
    led: Seq<Seq<char>>,
    follows: Seq<LiveStream>,
    offline: Seq<FollowedChannel>,
    watching: Seq<Seq<char>>,
    can_add: bool,
)
    ensures
        recent_rows(led, follows, offline, watching, can_add).len() >= led.len(),
        led.len() == 0 ==> recent_rows(led, follows, offline, watching, can_add).len() == 0,
        forall|i: int|
            0 <= i < recent_rows(led, follows, offline, watching, can_add).len() ==> {
                let row = #[trigger] recent_rows(led, follows, offline, watching, can_add)[i];
                match row.command {
                    CommandView::Watch(login) => led.contains(login),
                    CommandView::Add(login) => led.contains(login),
                    _ => false,
                }
            },
    decreases led.len(),
{
    if led.len() > 0 {
        let l = led.drop_last();
        lemma_recent_rows_grow(l, follows, offline, watching, can_add);
        let before = recent_rows(l, follows, offline, watching, can_add);
        let all = recent_rows(led, follows, offline, watching, can_add);
        assert(led[led.len() - 1] == led.last());
        assert forall|i: int| 0 <= i < all.len() implies {
            let row = #[trigger] all[i];
            match row.command {
                CommandView::Watch(login) => led.contains(login),
                CommandView::Add(login) => led.contains(login),
                _ => false,
            }
        } by {
            if i < before.len() {
                assert(all[i] == before[i]);
                let login = match before[i].command {
                    CommandView::Watch(login) => login,
                    CommandView::Add(login) => login,
                    _ => led.last(),
                };
                let k = choose|k: int| 0 <= k < l.len() && l[k] == login;
                assert(led[k] == login);
            }
        }
    }
}

/// With nothing typed the palette leads with the five channels that were
/// watched last, the last one first; then come the others that are live; and
/// nobody else is offered.
pub proof fn law_an_empty_palette_leads_with_what_was_watched(
    follows: Seq<LiveStream>,
    offline: Seq<FollowedChannel>,
    recent: Seq<Seq<char>>,
    watching: Seq<Seq<char>>,
    can_add: bool,
)
    ensures
        ({
            let all = offered(Seq::empty(), follows, offline, recent, watching, can_add);
            &&& recent.len() > 0 ==> all.len() > 0 && all[0].command == CommandView::Watch(
                recent[0],
            )
            &&& forall|k: int|
                0 <= k < recent.len() && k < 5 ==> exists|i: int|
                    0 <= i < all.len() && (#[trigger] all[i]).command == CommandView::Watch(
                        #[trigger] recent[k],
                    )
            &&& forall|j: int|
                0 <= j < follows.len() ==> exists|i: int|
                    0 <= i < all.len() && (#[trigger] all[i]).command == CommandView::Watch(
                        (#[trigger] follows[j]).user_login@,
                    )
            &&& forall|i: int|
                0 <= i < all.len() && (#[trigger] all[i]).command is Watch ==> {
                    let login = all[i].command->Watch_0;
                    (exists|k: int| 0 <= k < recent.len() && k < 5 && #[trigger] recent[k] == login)
                        || (exists|j: int|
                        0 <= j < follows.len() && (#[trigger] follows[j]).user_login@ == login)
                }
        }),
{
    let query = Seq::<char>::empty();
    let led = led_with(query, recent);
    let all = offered(query, follows, offline, recent, watching, can_add);
    let a = recent_rows(led, follows, offline, watching, can_add);
    let b = live_rows(query, follows, led, watching, can_add);
    let panes = close_rows(query, watching);
    let own = command_rows(query);
    assert(all =~= a + b + panes + own);
    lemma_recent_rows_grow(led, follows, offline, watching, can_add);
    lemma_live_rows_answer(query, follows, led, watching, can_add);
    lemma_close_rows_answer(query, watching);
    if recent.len() > 0 {
        let i = lemma_recent_rows_lead(led, follows, offline, watching, can_add, 0);
        assert(all[0] == a[0]);
    }
    assert forall|k: int| 0 <= k < recent.len() && k < 5 implies exists|i: int|
        0 <= i < all.len() && (#[trigger] all[i]).command == CommandView::Watch(
            #[trigger] recent[k],
        ) by {
        let i = lemma_recent_rows_lead(led, follows, offline, watching, can_add, k);
        assert(all[i] == a[i]);
        assert(led[k] == recent[k]);
    }
    assert forall|j: int| 0 <= j < follows.len() implies exists|i: int|
        0 <= i < all.len() && (#[trigger] all[i]).command == CommandView::Watch(
            (#[trigger] follows[j]).user_login@,
        ) by {
        let login = follows[j].user_login@;
        if led.contains(login) {
            let k = choose|k: int| 0 <= k < led.len() && led[k] == login;
            let i = lemma_recent_rows_lead(led, follows, offline, watching, can_add, k);
            assert(all[i] == a[i]);
        } else {
            law_everything_answers_to_nothing_typed(login);
            let i = lemma_live_rows_are_there(query, follows, led, watching, can_add, j);
            assert(all[a.len() + i] == b[i]);
        }
    }
    assert forall|i: int| 0 <= i < all.len() && (#[trigger] all[i]).command is Watch implies {
        let login = all[i].command->Watch_0;
        (exists|k: int| 0 <= k < recent.len() && k < 5 && #[trigger] recent[k] == login) || (
        exists|j: int| 0 <= j < follows.len() && (#[trigger] follows[j]).user_login@ == login)
    } by {
        let login = all[i].command->Watch_0;
        if i < a.len() {
            assert(all[i] == a[i]);
            let k = choose|k: int| 0 <= k < led.len() && led[k] == login;
            assert(recent[k] == login);
        } else if i < a.len() + b.len() {
            assert(all[i] == b[i - a.len()]);
            assert(live_answers(query, follows, login));
        } else if i < a.len() + b.len() + panes.len() {
            assert(all[i] == panes[i - a.len() - b.len()]);
        } else {
            assert(all[i] == own[i - a.len() - b.len() - panes.len()]);
        }
    }
}

/// What was typed names somebody who is not followed, or is a link: it can be
/// opened and its recordings looked at, whoever else is offered. A name that
/// still narrows the follows gets no row of its own.
pub proof fn law_what_was_typed_can_be_opened(
    query: Seq<char>,
    follows: Seq<LiveStream>,
    offline: Seq<FollowedChannel>,
    recent: Seq<Seq<char>>,
    watching: Seq<Seq<char>>,
    can_add: bool,
    login: Seq<char>,
)
    requires
        target::reading(query) == Some(target::TargetView::Channel(login)),
    ensures
        ({
            let all = offered(query, follows, offline, recent, watching, can_add);
            let nobody = (forall|j: int|
                0 <= j < follows.len() ==> !found((#[trigger] follows[j]).display_name@, query)
                    && !found(follows[j].user_login@, query)) && (forall|j: int|
                0 <= j < offline.len() ==> !found((#[trigger] offline[j]).display_name@, query)
                    && !found(offline[j].login@, query));
            &&& nobody || query.contains('/') ==> (exists|i: int|
                0 <= i < all.len() && (#[trigger] all[i]).command == CommandView::Watch(login)) && (
            exists|i: int|
                0 <= i < all.len() && looks_at(
                    #[trigger] all[i],
                    login,
                    login,
                    Seq::empty(),
                ))
            &&& !nobody && !query.contains('/') ==> forall|i: int|
                0 <= i < all.len() && (#[trigger] all[i]).command == CommandView::Watch(login)
                    ==> live_answers(query, follows, login) || offline_answers(
                    query,
                    offline,
                    login,
                )
        }),
{
    if query.len() == 0 {
        target::law_nothing_names_nothing(query);
    }
    let led = led_with(query, recent);
    let all = offered(query, follows, offline, recent, watching, can_add);
    let matched = follow_matches(query, follows, offline);
    let nobody = (forall|j: int|
        0 <= j < follows.len() ==> !found((#[trigger] follows[j]).display_name@, query) && !found(
            follows[j].user_login@,
            query,
        )) && (forall|j: int|
        0 <= j < offline.len() ==> !found((#[trigger] offline[j]).display_name@, query) && !found(
            offline[j].login@,
            query,
        ));
    assert(matched == !nobody);
    let a = live_rows(query, follows, led, watching, can_add);
    let b = offline_rows(query, offline);
    let c = live_past_rows(query, follows);
    let d = offline_past_rows(query, offline);
    let e = typed_rows(query, matched, watching, can_add);
    let f = close_rows(query, watching);
    let g = command_rows(query);
    assert(recent_rows(led, follows, offline, watching, can_add).len() == 0);
    assert(all =~= a + b + c + d + e + f + g);
    let n = a.len() + b.len() + c.len() + d.len();
    if nobody || query.contains('/') {
        assert(all[n as int] == e[0]);
        assert(all[n + e.len() - 1] == e[e.len() - 1]);
    } else {
        lemma_live_rows_answer(query, follows, led, watching, can_add);
        lemma_offline_rows_answer(query, offline);
        lemma_live_past_rows_answer(query, follows);
        lemma_close_rows_answer(query, watching);
        assert forall|i: int|
            0 <= i < all.len() && (#[trigger] all[i]).command == CommandView::Watch(
                login,
            ) implies live_answers(query, follows, login) || offline_answers(
            query,
            offline,
            login,
        ) by {
            if i < a.len() {
                assert(all[i] == a[i]);
            } else if i < a.len() + b.len() {
                assert(all[i] == b[i - a.len()]);
            } else if i < a.len() + b.len() + c.len() {
                assert(all[i] == c[i - a.len() - b.len()]);
            } else if i < n {
                assert(all[i] == d[i - a.len() - b.len() - c.len()]);
            } else if i < n + f.len() {
                assert(all[i] == f[i - n]);
            } else {
                assert(all[i] == g[i - n - f.len()]);
            }
        }
    }
}

/// A text is put in lower case letter by letter, in order.
pub proof fn law_case_is_folded_letter_by_letter(a: Seq<char>, b: Seq<char>, c: char)
    ensures
        folded(a + b) == folded(a) + folded(b),
        folded(seq![c]) == lowercase(c),
    decreases b.len(),
{
    assert(seq![c].drop_last() =~= Seq::<char>::empty());
    assert(folded(Seq::<char>::empty()) + lowercase(c) =~= lowercase(c));
    if b.len() == 0 {
        assert(a + b =~= a);
        assert(folded(a) + folded(b) =~= folded(a));
    } else {
        law_case_is_folded_letter_by_letter(a, b.drop_last(), c);
        assert((a + b).drop_last() =~= a + b.drop_last());
        assert(folded(a + b) =~= folded(a) + folded(b));
    }
}

// ── The selection ────────────────────────────────────────────────────

/// How many rows are on screen at once.
pub const MAX_ROWS: usize = 8;

/// The selection one row down or up, wrapping at both ends. Nothing moves in an
/// empty list.
pub fn move_selection(selected: usize, down: bool, count: usize) -> (r: usize)
    ensures
        count == 0 ==> r == selected,
        count > 0 ==> r == (if down {
            selected + 1
        } else {
            selected - 1
        }) % count as int,
{
    if count == 0 {
        return selected;
    }
    let next: i128 = if down {
        selected as i128 + 1
    } else {
        selected as i128 - 1
    };
    if next < 0 {
        proof {
            vstd::arithmetic::div_mod::lemma_mod_add_multiples_vanish(-1, count as int);
            vstd::arithmetic::div_mod::lemma_small_mod((count - 1) as nat, count as nat);
        }
        count - 1
    } else {
        let next: u128 = next as u128;
        let r: u128 = next % (count as u128);
        r as usize
    }
}

/// The row that is marked: the selection, or the last row where the list has
/// shrunk under it.
pub fn clamped(selected: usize, count: usize) -> (r: usize)
    ensures
        r == (if count == 0 {
            0
        } else if selected < count {
            selected
        } else {
            (count - 1) as usize
        }),
{
    if count == 0 {
        0
    } else if selected < count {
        selected
    } else {
        count - 1
    }
}

/// The rows on screen: the first, and the one behind the last. A window onto
/// the list, kept around the selection so that going past the bottom scrolls
/// instead of stopping.
pub fn rows_on_screen(selected: usize, count: usize) -> (r: (usize, usize))
    requires
        selected < count || selected == 0,
    ensures
        r.0 == (if selected < MAX_ROWS {
            0
        } else {
            selected - 7
        }),
        r.1 == (if count - r.0 < MAX_ROWS {
            count as int
        } else {
            r.0 + MAX_ROWS
        }),
        count > 0 ==> r.0 <= selected < r.1 <= count,
        r.1 - r.0 <= MAX_ROWS,
{
    let first: usize = if selected < MAX_ROWS {
        0
    } else {
        selected - 7
    };
    let last: usize = if count - first < MAX_ROWS {
        count
    } else {
        first + MAX_ROWS
    };
    (first, last)
}

/// A channel goes by the name that a list has for it, the live one before the
/// other, and by its login where none has.
pub proof fn law_a_channel_goes_by_its_name(
    login: Seq<char>,
    follows: Seq<LiveStream>,
    offline: Seq<FollowedChannel>,
    i: int,
)
    ensures
        (forall|k: int| 0 <= k < follows.len() ==> (#[trigger] follows[k]).user_login@ != login) && (
        forall|k: int| 0 <= k < offline.len() ==> (#[trigger] offline[k]).login@ != login)
            ==> name_of(login, follows, offline) == login,
        0 <= i < follows.len() && follows[i].user_login@ == login && (forall|k: int|
            0 <= k < i ==> (#[trigger] follows[k]).user_login@ != login) ==> name_of(
            login,
            follows,
            offline,
        ) == follows[i].display_name@,
        (forall|k: int| 0 <= k < follows.len() ==> (#[trigger] follows[k]).user_login@ != login)
            && 0 <= i < offline.len() && offline[i].login@ == login && (forall|k: int|
            0 <= k < i ==> (#[trigger] offline[k]).login@ != login) ==> name_of(
            login,
            follows,
            offline,
        ) == offline[i].display_name@,
{
    lemma_live_name(login, follows, i);
    lemma_followed_name(login, offline, i);
}

proof fn lemma_live_name(login: Seq<char>, follows: Seq<LiveStream>, i: int)
    ensures
        (forall|k: int| 0 <= k < follows.len() ==> (#[trigger] follows[k]).user_login@ != login)
            ==> live_name(login, follows) is None,
        0 <= i < follows.len() && follows[i].user_login@ == login && (forall|k: int|
            0 <= k < i ==> (#[trigger] follows[k]).user_login@ != login) ==> live_name(login, follows)
            == Some(follows[i].display_name@),
    decreases follows.len(),
{
    if follows.len() > 0 && follows[0].user_login@ != login {
        let rest = follows.drop_first();
        lemma_live_name(login, rest, i - 1);
        assert(forall|k: int| 0 <= k < rest.len() ==> #[trigger] rest[k] == follows[k + 1]);
    }
}

proof fn lemma_followed_name(login: Seq<char>, offline: Seq<FollowedChannel>, i: int)
    ensures
        (forall|k: int| 0 <= k < offline.len() ==> (#[trigger] offline[k]).login@ != login)
            ==> followed_name(login, offline) is None,
        0 <= i < offline.len() && offline[i].login@ == login && (forall|k: int|
            0 <= k < i ==> (#[trigger] offline[k]).login@ != login) ==> followed_name(login, offline)
            == Some(offline[i].display_name@),
    decreases offline.len(),
{
    if offline.len() > 0 && offline[0].login@ != login {
        let rest = offline.drop_first();
        lemma_followed_name(login, rest, i - 1);
        assert(forall|k: int| 0 <= k < rest.len() ==> #[trigger] rest[k] == offline[k + 1]);
    }
}

/// What was typed is offered under what it names: a recording under its number,
/// and a channel under its login, to be watched or looked through.
pub proof fn law_what_was_typed_is_named(
    query: Seq<char>,
    watching: Seq<Seq<char>>,
    can_add: bool,
    id: Seq<char>,
    start_secs: Option<u64>,
    login: Seq<char>,
)
    ensures
        target::reading(query) == Some(target::TargetView::Video { id, start_secs }) ==> {
            let rows = typed_rows(query, false, watching, can_add);
            &&& rows.len() == 1
            &&& rows[0].command == (CommandView::OpenVideo { id, start_secs })
            &&& rows[0].title == "Open recording "@ + id
            &&& rows[0].kind == "recording"@
        },
        target::reading(query) == Some(target::TargetView::Channel(login)) ==> {
            let rows = typed_rows(query, false, watching, can_add);
            &&& rows[0].command == CommandView::Watch(login)
            &&& rows[0].title == "Open "@ + login
            &&& rows[0].kind == (if watching.contains(login) {
                "watching"@
            } else {
                "channel"@
            })
            &&& rows.last().title == login + " — past broadcasts"@
            &&& rows.last().kind == "videos"@
        },
        target::reading(query) is None ==> typed_rows(query, false, watching, can_add).len() == 0,
{
}

} // verus!
