//! Who is followed and who of them is live, the notices that come of it, and
//! the recordings that were named by a link and are still to be looked up.

use crate::helix;
use crate::helix::{FollowedChannel, LiveStream};
use crate::moment;
use crate::moment::Moment;
use crate::palette;
use crate::weighed;
use crate::weighed::Weighed;
use crate::text;
use crate::twitch;
use crate::watch::Slot;
use vstd::prelude::*;
use vstd::string::*;

verus! {

/// The two lists of follows, and what goes with them.
#[derive(Debug, Clone)]
pub struct Follows {
    /// Who is live.
    pub live: Vec<LiveStream>,
    /// Who is not.
    pub offline: Vec<FollowedChannel>,
    /// A follows request the user asked for by hand is outstanding.
    pub refreshing: bool,
    /// Whether a follows list has ever come back.
    pub loaded: bool,
    /// Whether a list of who is live has ever come, be it empty.
    pub seeded: bool,
    /// The logins of those who were live at the last poll.
    pub known_live: Vec<String>,
    /// Login and picture. Merged rather than replaced on each poll.
    pub avatars: Vec<(String, String)>,
}

impl Default for Follows {
    fn default() -> (r: Follows)
        ensures
            r.live@.len() == 0,
            r.offline@.len() == 0,
            !r.refreshing,
            !r.loaded,
            !r.seeded,
            r.known_live@.len() == 0,
            r.avatars@.len() == 0,
    {
        Follows {
            live: Vec::new(),
            offline: Vec::new(),
            refreshing: false,
            loaded: false,
            seeded: false,
            known_live: Vec::new(),
            avatars: Vec::new(),
        }
    }
}

// ── Who went live ────────────────────────────────────────────────────

/// That somebody went live.
#[derive(Debug, Clone, PartialEq, Eq)]
pub struct News {
    pub login: String,
    pub text: String,
    pub viewers: u64,
}

#[verifier::ext_equal]
pub struct NewsView {
    pub login: Seq<char>,
    pub text: Seq<char>,
    pub viewers: u64,
}

impl View for News {
    type V = NewsView;

    open spec fn view(&self) -> NewsView {
        NewsView { login: self.login@, text: self.text@, viewers: self.viewers }
    }
}

pub open spec fn news_views(list: Seq<News>) -> Seq<NewsView> {
    Seq::new(list.len(), |i: int| list[i]@)
}

/// What is said of a stream that has just gone live.
pub open spec fn news_of(stream: LiveStream) -> NewsView {
    NewsView {
        login: stream.user_login@,
        text: stream.display_name@ + " went live · "@ + stream.game_name@,
        viewers: stream.viewer_count,
    }
}

/// The news about those streams whose channel was not known to be live.
pub open spec fn newly(streams: Seq<LiveStream>, known: Seq<Seq<char>>) -> Seq<NewsView>
    decreases streams.len(),
{
    if streams.len() == 0 {
        Seq::empty()
    } else {
        let before = newly(streams.drop_last(), known);
        if known.contains(streams.last().user_login@) {
            before
        } else {
            before.push(news_of(streams.last()))
        }
    }
}

impl Weighed for News {
    open spec fn weight(self) -> nat {
        self.viewers as nat
    }

    fn weighs(&self) -> (r: u128) {
        self.viewers as u128
    }
}

/// How many watch each.
pub open spec fn watched(list: Seq<NewsView>) -> Seq<nat> {
    Seq::new(list.len(), |i: int| list[i].viewers as nat)
}

/// A list with the most watched first; of two watched by as many, the one that
/// stood first.
pub open spec fn ranked(list: Seq<NewsView>) -> Seq<NewsView>
    decreases list.len(),
{
    if list.len() == 0 {
        Seq::empty()
    } else {
        let before = ranked(list.drop_last());
        before.insert(
            weighed::place(watched(before), list.last().viewers as nat),
            list.last(),
        )
    }
}

/// The news come with the most watched first, and nobody is announced who is
/// not in them.
pub proof fn law_the_busiest_comes_first(list: Seq<NewsView>)
    ensures
        ranked(list).len() == list.len(),
        forall|i: int, j: int|
            0 <= i < j < ranked(list).len() ==> (#[trigger] ranked(list)[i]).viewers >= (
            #[trigger] ranked(list)[j]).viewers,
        ranked(list).to_multiset() == list.to_multiset(),
    decreases list.len(),
{
    broadcast use vstd::seq_lib::group_to_multiset_ensures;

    if list.len() == 0 {
        assert(ranked(list) =~= list);
    } else {
        let before = ranked(list.drop_last());
        law_the_busiest_comes_first(list.drop_last());
        let viewers = list.last().viewers as nat;
        let at = weighed::place(watched(before), viewers);
        let all = ranked(list);
        weighed::lemma_place(watched(before), viewers);
        assert(list =~= list.drop_last().push(list.last()));
        vstd::seq_lib::to_multiset_insert(before, at, list.last());
        assert(weighed::descending(watched(before))) by {
            assert forall|i: int, j: int| 0 <= i < j < before.len() implies #[trigger] watched(
                before,
            )[i] >= #[trigger] watched(before)[j] by {
                assert(before[i].viewers >= before[j].viewers);
            }
        }
        weighed::lemma_stays_descending(watched(before), viewers);
        assert(watched(all) =~= watched(before).insert(at, viewers));
        assert forall|i: int, j: int| 0 <= i < j < all.len() implies (#[trigger] all[i]).viewers
            >= (#[trigger] all[j]).viewers by {
            assert(watched(all)[i] >= watched(all)[j]);
        }
    }
}

// ── Who came back ────────────────────────────────────────────────────

/// Whether a pane that found nothing to play has a broadcast to try: its
/// channel is listed as live, and has been since after the pane stalled. That
/// tells a new broadcast from a list that is merely a minute behind the pane.
pub open spec fn comes_back(slot: Slot, streams: Seq<LiveStream>) -> bool {
    slot.live() && match (slot.stalled_at, helix::stream_of(streams, slot.channel@)) {
        (Some(stalled), Some(stream)) => match moment::named(stream.started_at@) {
            Some(started) => started.is_after(stalled),
            None => false,
        },
        _ => false,
    }
}

/// The keys of the panes that have a broadcast to try, in order.
pub open spec fn resumed(slots: Seq<Slot>, streams: Seq<LiveStream>) -> Seq<Seq<char>>
    decreases slots.len(),
{
    if slots.len() == 0 {
        Seq::empty()
    } else {
        let before = resumed(slots.drop_last(), streams);
        if comes_back(slots.last(), streams) {
            before.push(slots.last().key@)
        } else {
            before
        }
    }
}

fn is_back(slot: &Slot, streams: &Vec<LiveStream>) -> (r: bool)
    ensures
        r == comes_back(*slot, streams@),
{
    if !slot.is_live() {
        return false;
    }
    match slot.stalled_at {
        Some(stalled) => match helix::find_stream(streams, slot.channel.as_str()) {
            Some(stream) => match moment::parse(stream.started_at.as_str()) {
                Some(started) => started.after(&stalled),
                None => false,
            },
            None => false,
        },
        None => false,
    }
}

fn resumed_keys(slots: &Vec<Slot>, streams: &Vec<LiveStream>) -> (r: Vec<String>)
    ensures
        text::texts(r@) == resumed(slots@, streams@),
{
    let mut out: Vec<String> = Vec::new();
    let mut i: usize = 0;
    assert(text::texts(out@) =~= resumed(slots@.take(0), streams@));
    while i < slots.len()
        invariant
            i <= slots@.len(),
            text::texts(out@) == resumed(slots@.take(i as int), streams@),
        decreases slots.len() - i,
    {
        let ghost before = text::texts(out@);
        assert(slots@.take(i + 1).drop_last() =~= slots@.take(i as int));
        if is_back(&slots[i], streams) {
            out.push(slots[i].key.clone());
            assert(text::texts(out@) =~= before.push(slots@[i as int].key@));
        }
        i += 1;
    }
    assert(slots@.take(i as int) =~= slots@);
    out
}

// ── Who is not live ──────────────────────────────────────────────────

/// The channels of `list` that are not among these logins.
pub open spec fn absent(list: Seq<FollowedChannel>, live: Seq<Seq<char>>) -> Seq<FollowedChannel>
    decreases list.len(),
{
    if list.len() == 0 {
        Seq::empty()
    } else {
        let before = absent(list.drop_last(), live);
        if live.contains(list.last().login@) {
            before
        } else {
            before.push(list.last())
        }
    }
}

fn copy_channel(channel: &FollowedChannel) -> (r: FollowedChannel)
    ensures
        r == *channel,
{
    FollowedChannel {
        login: channel.login.clone(),
        user_id: channel.user_id.clone(),
        display_name: channel.display_name.clone(),
    }
}

fn absent_from(list: &Vec<FollowedChannel>, live: &Vec<String>) -> (r: Vec<FollowedChannel>)
    ensures
        r@ == absent(list@, text::texts(live@)),
{
    let mut out: Vec<FollowedChannel> = Vec::new();
    let mut i: usize = 0;
    assert(out@ =~= absent(list@.take(0), text::texts(live@)));
    while i < list.len()
        invariant
            i <= list@.len(),
            out@ == absent(list@.take(i as int), text::texts(live@)),
        decreases list.len() - i,
    {
        assert(list@.take(i + 1).drop_last() =~= list@.take(i as int));
        if !text::listed(live.as_slice(), list[i].login.as_str()) {
            out.push(copy_channel(&list[i]));
        }
        i += 1;
    }
    assert(list@.take(i as int) =~= list@);
    out
}

pub proof fn lemma_absent(list: Seq<FollowedChannel>, live: Seq<Seq<char>>)
    ensures
        forall|i: int|
            0 <= i < absent(list, live).len() ==> !live.contains(
                (#[trigger] absent(list, live)[i]).login@,
            ),
    decreases list.len(),
{
    if list.len() > 0 {
        let before = absent(list.drop_last(), live);
        lemma_absent(list.drop_last(), live);
        assert forall|i: int| 0 <= i < absent(list, live).len() implies !live.contains(
            (#[trigger] absent(list, live)[i]).login@,
        ) by {
            if i < before.len() {
                assert(absent(list, live)[i] == before[i]);
            }
        }
    }
}

// ── The lists ────────────────────────────────────────────────────────

/// What a fresh list of who is live comes to.
#[derive(Debug, Clone)]
pub struct Arrivals {
    /// Who just came online, the most watched first.
    pub news: Vec<News>,
    /// The panes that are to ask for their stream again.
    pub resumed: Vec<String>,
}

impl Follows {
    /// Nobody is on both lists.
    pub open spec fn apart(self) -> bool {
        forall|i: int|
            0 <= i < self.offline@.len() ==> !text::texts(self.known_live@).contains(
                (#[trigger] self.offline@[i]).login@,
            )
    }

    /// What a fresh list of who is live changes, and what comes of it: nobody
    /// who was known to be live is news, and neither is anybody on the first
    /// list.
    pub open spec fn arrives(
        self,
        streams: Vec<LiveStream>,
        slots: Seq<Slot>,
        after: Follows,
        r: Arrivals,
    ) -> bool {
        &&& news_views(r.news@) == (if self.seeded {
            ranked(newly(streams@, text::texts(self.known_live@)))
        } else {
            Seq::empty()
        })
        &&& text::texts(r.resumed@) == resumed(slots, streams@)
        &&& after.live == streams
        &&& after.offline@ == absent(self.offline@, twitch::logins(streams@))
        &&& after.refreshing == self.refreshing
        &&& after.loaded
        &&& after.seeded
        &&& text::texts(after.known_live@) == twitch::logins(streams@)
        &&& after.avatars == self.avatars
    }

    /// Take a fresh list of who is live, and say who just came online.
    ///
    /// The first list seeds the known set silently, even where nobody is on it:
    /// on launch everyone is newly live.
    pub fn on_streams(&mut self, streams: Vec<LiveStream>, slots: &Vec<Slot>) -> (r: Arrivals)
        ensures
            old(self).arrives(streams, slots@, *final(self), r),
            final(self).apart(),
    {
        let mut news: Vec<News> = Vec::new();
        let ghost known = text::texts(self.known_live@);
        assert(news_views(news@) =~= Seq::<NewsView>::empty());
        if self.seeded {
            let mut i: usize = 0;
            assert(newly(streams@.take(0), known) =~= Seq::<NewsView>::empty());
            while i < streams.len()
                invariant
                    i <= streams@.len(),
                    known == text::texts(self.known_live@),
                    news_views(news@) == ranked(newly(streams@.take(i as int), known)),
                decreases streams.len() - i,
            {
                assert(streams@.take(i + 1).drop_last() =~= streams@.take(i as int));
                if !text::listed(self.known_live.as_slice(), streams[i].user_login.as_str()) {
                    let mut said = text::concat2(streams[i].display_name.as_str(), " went live · ");
                    said.append(streams[i].game_name.as_str());
                    let one = News {
                        login: streams[i].user_login.clone(),
                        text: said,
                        viewers: streams[i].viewer_count,
                    };
                    proof {
                        let before = newly(streams@.take(i as int), known);
                        let after = before.push(news_of(streams@[i as int]));
                        assert(after.drop_last() =~= before);
                        assert(one@ == news_of(streams@[i as int]));
                    }
                    let ghost held = news@;
                    proof {
                        weighed::lemma_place(weighed::weights(held), one.weight());
                    }
                    weighed::insert(&mut news, one);
                    proof {
                        assert(weighed::weights(held) =~= watched(news_views(held)));
                        assert(news_views(news@) =~= news_views(held).insert(
                            weighed::place(weighed::weights(held), one.weight()),
                            one@,
                        ));
                    }
                }
                i += 1;
            }
            assert(streams@.take(i as int) =~= streams@);
        }
        let resumed = resumed_keys(slots, &streams);
        let now_live = {
            let mut out: Vec<String> = Vec::new();
            let mut i: usize = 0;
            while i < streams.len()
                invariant
                    i <= streams@.len(),
                    out@.len() == i,
                    forall|k: int| 0 <= k < i ==> (#[trigger] out@[k])@ == streams@[k].user_login@,
                decreases streams.len() - i,
            {
                out.push(streams[i].user_login.clone());
                i += 1;
            }
            assert(text::texts(out@) =~= twitch::logins(streams@));
            out
        };
        proof {
            lemma_absent(self.offline@, text::texts(now_live@));
        }
        self.offline = absent_from(&self.offline, &now_live);
        self.known_live = now_live;
        self.live = streams;
        self.loaded = true;
        self.seeded = true;
        Arrivals { news, resumed }
    }

    /// Take the list of everyone followed. Filtered against the live list
    /// rather than trusted: the two requests are seconds apart, so somebody can
    /// go live between them.
    pub fn on_followed_channels(&mut self, channels: Vec<FollowedChannel>)
        ensures
            final(self).offline@ == absent(channels@, text::texts(old(self).known_live@)),
            *final(self) == (Follows {
                offline: final(self).offline,
                refreshing: false,
                loaded: true,
                ..*old(self)
            }),
            final(self).apart(),
    {
        proof {
            lemma_absent(channels@, text::texts(self.known_live@));
        }
        self.offline = absent_from(&channels, &self.known_live);
        self.refreshing = false;
        self.loaded = true;
    }

    /// The follows could not be fetched. Only worth saying when somebody asked:
    /// the poll runs every minute.
    pub fn on_follows_error(&mut self, reason: &str) -> (r: Option<String>)
        ensures
            *final(self) == (Follows { refreshing: false, ..*old(self) }),
            match r {
                Some(said) => old(self).refreshing && said@ == "could not refresh: "@ + reason@,
                None => !old(self).refreshing,
            },
    {
        let asked = self.refreshing;
        self.refreshing = false;
        if asked {
            Some(text::concat2("could not refresh: ", reason))
        } else {
            None
        }
    }

    /// Take pictures in, beside those already there.
    pub fn on_avatars(&mut self, images: Vec<(String, String)>)
        ensures
            forall|login: Seq<char>| #[trigger]
                picture(final(self).avatars@, login) == (if picture(images@, login) is Some {
                    picture(images@, login)
                } else {
                    picture(old(self).avatars@, login)
                }),
            *final(self) == (Follows { avatars: final(self).avatars, ..*old(self) }),
    {
        let ghost held = self.avatars@;
        let mut i: usize = 0;
        assert forall|login: Seq<char>| #[trigger] picture(self.avatars@, login) == (if picture(
            images@.take(0),
            login,
        ) is Some {
            picture(images@.take(0), login)
        } else {
            picture(held, login)
        }) by {
            assert(images@.take(0).len() == 0);
        }
        while i < images.len()
            invariant
                i <= images@.len(),
                forall|login: Seq<char>| #[trigger]
                    picture(self.avatars@, login) == (if picture(
                        images@.take(i as int),
                        login,
                    ) is Some {
                        picture(images@.take(i as int), login)
                    } else {
                        picture(held, login)
                    }),
                *self == (Follows { avatars: self.avatars, ..*old(self) }),
            decreases images.len() - i,
        {
            let ghost before = self.avatars@;
            put(&mut self.avatars, images[i].0.clone(), images[i].1.clone());
            proof {
                let t = images@.take(i + 1);
                assert(t.drop_last() =~= images@.take(i as int));
                assert forall|login: Seq<char>| #[trigger] picture(self.avatars@, login) == (
                if picture(t, login) is Some {
                    picture(t, login)
                } else {
                    picture(held, login)
                }) by {
                    assert(t.last() == images@[i as int]);
                    assert(picture(before, login) == (if picture(
                        images@.take(i as int),
                        login,
                    ) is Some {
                        picture(images@.take(i as int), login)
                    } else {
                        picture(held, login)
                    }));
                }
            }
            i += 1;
        }
        assert(images@.take(i as int) =~= images@);
    }
}

// ── Narrowing the lists ──────────────────────────────────────────────

/// The places of a list that `shown` says are shown, in order.
pub open spec fn places(n: int, shown: spec_fn(int) -> bool) -> Seq<usize>
    decreases n,
{
    if n <= 0 {
        Seq::empty()
    } else if shown(n - 1) {
        places(n - 1, shown).push((n - 1) as usize)
    } else {
        places(n - 1, shown)
    }
}

impl Follows {
    /// Which of those who are live answer to what was typed over the lists, by
    /// the palette's own idea of what answers.
    pub fn narrowed_live(&self, typed: &str) -> (r: Vec<usize>)
        ensures
            r@ == places(
                self.live@.len() as int,
                |i: int|
                    palette::either_found(
                        self.live@[i].display_name@,
                        self.live@[i].user_login@,
                        typed@,
                    ),
            ),
    {
        let ghost shown = |i: int|
            palette::either_found(
                self.live@[i].display_name@,
                self.live@[i].user_login@,
                typed@,
            );
        let mut out: Vec<usize> = Vec::new();
        let mut i: usize = 0;
        while i < self.live.len()
            invariant
                i <= self.live@.len(),
                shown == (|i: int|
                    palette::either_found(
                        self.live@[i].display_name@,
                        self.live@[i].user_login@,
                        typed@,
                    )),
                out@ == places(i as int, shown),
            decreases self.live.len() - i,
        {
            if palette::matches(self.live[i].display_name.as_str(), typed) || palette::matches(
                self.live[i].user_login.as_str(),
                typed,
            ) {
                out.push(i);
            }
            i += 1;
        }
        out
    }

    /// Which of those who are not live answer to it.
    pub fn narrowed_offline(&self, typed: &str) -> (r: Vec<usize>)
        ensures
            r@ == places(
                self.offline@.len() as int,
                |i: int|
                    palette::either_found(
                        self.offline@[i].display_name@,
                        self.offline@[i].login@,
                        typed@,
                    ),
            ),
    {
        let ghost shown = |i: int|
            palette::either_found(
                self.offline@[i].display_name@,
                self.offline@[i].login@,
                typed@,
            );
        let mut out: Vec<usize> = Vec::new();
        let mut i: usize = 0;
        while i < self.offline.len()
            invariant
                i <= self.offline@.len(),
                shown == (|i: int|
                    palette::either_found(
                        self.offline@[i].display_name@,
                        self.offline@[i].login@,
                        typed@,
                    )),
                out@ == places(i as int, shown),
            decreases self.offline.len() - i,
        {
            if palette::matches(self.offline[i].display_name.as_str(), typed) || palette::matches(
                self.offline[i].login.as_str(),
                typed,
            ) {
                out.push(i);
            }
            i += 1;
        }
        out
    }
}

/// Nothing typed hides nobody.
pub proof fn law_nothing_typed_hides_nobody(n: int, names: Seq<Seq<char>>, logins: Seq<Seq<char>>)
    requires
        0 <= n <= usize::MAX,
    ensures
        ({
            let shown = |i: int|
                palette::either_found(names[i], logins[i], Seq::empty());
            places(n, shown) == Seq::new(n as nat, |i: int| i as usize)
        }),
    decreases n,
{
    let shown = |i: int| palette::either_found(names[i], logins[i], Seq::empty());
    let all = Seq::new(n as nat, |i: int| i as usize);
    if n > 0 {
        law_nothing_typed_hides_nobody(n - 1, names, logins);
        palette::law_everything_answers_to_nothing_typed(names[n - 1]);
        assert(shown(n - 1));
        assert(places(n, shown) =~= all);
    } else {
        assert(places(n, shown) =~= all);
    }
}

// ── Pictures ─────────────────────────────────────────────────────────

/// The picture of a login: the last that a list has for it.
pub open spec fn picture(list: Seq<(String, String)>, login: Seq<char>) -> Option<Seq<char>>
    decreases list.len(),
{
    if list.len() == 0 {
        None
    } else if list.last().0@ == login {
        Some(list.last().1@)
    } else {
        picture(list.drop_last(), login)
    }
}

proof fn lemma_picture_updated(list: Seq<(String, String)>, at: int, pair: (String, String), login: Seq<char>)
    requires
        0 <= at < list.len(),
        pair.0@ == list[at].0@,
        forall|k: int| at < k < list.len() ==> (#[trigger] list[k]).0@ != pair.0@,
    ensures
        picture(list.update(at, pair), login) == (if login == pair.0@ {
            Some(pair.1@)
        } else {
            picture(list, login)
        }),
    decreases list.len(),
{
    let all = list.update(at, pair);
    if at == list.len() - 1 {
        assert(all.drop_last() =~= list.drop_last());
    } else {
        assert(all.last() == list.last());
        assert(all.drop_last() =~= list.drop_last().update(at, pair));
        lemma_picture_updated(list.drop_last(), at, pair, login);
    }
}

/// Put a picture beside a login, in place of the last one there was.
fn put(list: &mut Vec<(String, String)>, login: String, url: String)
    ensures
        forall|key: Seq<char>| #[trigger]
            picture(final(list)@, key) == (if key == login@ {
                Some(url@)
            } else {
                picture(old(list)@, key)
            }),
{
    let ghost held = list@;
    let mut i: usize = list.len();
    while i > 0
        invariant
            i <= list@.len(),
            list@ == held,
            held == old(list)@,
            forall|k: int| i <= k < list@.len() ==> (#[trigger] list@[k]).0@ != login@,
        decreases i,
    {
        i -= 1;
        if text::same(list[i].0.as_str(), login.as_str()) {
            let ghost pair = (login, url);
            list.set(i, (login, url));
            proof {
                assert forall|key: Seq<char>| #[trigger] picture(list@, key) == (if key == login@ {
                    Some(url@)
                } else {
                    picture(held, key)
                }) by {
                    lemma_picture_updated(held, i as int, pair, key);
                }
            }
            return ;
        }
    }
    list.push((login, url));
    proof {
        assert(list@.drop_last() =~= held);
        assert forall|key: Seq<char>| #[trigger] picture(list@, key) == (if key == login@ {
            Some(url@)
        } else {
            picture(held, key)
        }) by {}
    }
}

/// The picture of a login, where there is one.
pub fn avatar<'a>(list: &'a Vec<(String, String)>, login: &str) -> (r: Option<&'a String>)
    ensures
        match r {
            Some(url) => picture(list@, login@) == Some(url@),
            None => picture(list@, login@) is None,
        },
{
    let mut i: usize = list.len();
    assert(list@.take(i as int) =~= list@);
    while i > 0
        invariant
            i <= list@.len(),
            picture(list@.take(i as int), login@) == picture(list@, login@),
        decreases i,
    {
        assert(list@.take(i as int).drop_last() =~= list@.take(i - 1));
        i -= 1;
        if text::same(list[i].0.as_str(), login) {
            return Some(&list[i].1);
        }
    }
    None
}

proof fn lemma_newly_holds(streams: Seq<LiveStream>, known: Seq<Seq<char>>, i: int)
    requires
        0 <= i < streams.len(),
        !known.contains(streams[i].user_login@),
    ensures
        newly(streams, known).contains(news_of(streams[i])),
    decreases streams.len(),
{
    let before = newly(streams.drop_last(), known);
    let all = newly(streams, known);
    if i == streams.len() - 1 {
        assert(all.last() == news_of(streams[i]));
    } else {
        lemma_newly_holds(streams.drop_last(), known, i);
        let k = before.index_of(news_of(streams[i]));
        assert(all[k] == before[k]);
    }
}

/// Only the first list is taken in silently. Any later one announces everybody
/// on it who was not on the one before, even where that was empty, and says
/// nothing else.
pub proof fn law_only_the_first_list_is_silent(
    before: Follows,
    first: Vec<LiveStream>,
    slots: Seq<Slot>,
    between: Follows,
    r: Arrivals,
    second: Vec<LiveStream>,
    later_slots: Seq<Slot>,
    after: Follows,
    later: Arrivals,
)
    requires
        before.arrives(first, slots, between, r),
        between.arrives(second, later_slots, after, later),
    ensures
        !before.seeded ==> r.news@.len() == 0,
        later.news@.len() == newly(second@, twitch::logins(first@)).len(),
        forall|i: int|
            0 <= i < second@.len() && !twitch::logins(first@).contains(second@[i].user_login@)
                ==> news_views(later.news@).contains(#[trigger] news_of(second@[i])),
{
    broadcast use vstd::seq_lib::group_to_multiset_ensures;

    assert(news_views(r.news@).len() == r.news@.len());
    let known = twitch::logins(first@);
    let fresh = newly(second@, known);
    law_the_busiest_comes_first(fresh);
    assert forall|i: int|
        0 <= i < second@.len() && !known.contains(second@[i].user_login@) implies news_views(
        later.news@,
    ).contains(#[trigger] news_of(second@[i])) by {
        lemma_newly_holds(second@, known, i);
        assert(fresh.to_multiset().count(news_of(second@[i])) > 0);
        assert(ranked(fresh).to_multiset().count(news_of(second@[i])) > 0);
    }
}

/// Whether somebody of this login is listed with a broadcast that began after a
/// moment.
pub open spec fn began_after(streams: Seq<LiveStream>, login: Seq<char>, then: Moment) -> bool {
    exists|j: int|
        0 <= j < streams.len() && (#[trigger] streams[j]).user_login@ == login && (match moment::named(
            streams[j].started_at@,
        ) {
            Some(began) => began.secs > then.secs || (began.secs == then.secs && began.nanos
                > then.nanos),
            None => false,
        })
}

/// A pane is started again only for a broadcast that began after the pane found
/// nothing to play, never for the one that has just ended; and where every
/// listed broadcast of its channel did, it is started again. Recordings and
/// panes that play are left alone.
pub proof fn law_only_a_new_broadcast_resumes_a_pane(
    slots: Seq<Slot>,
    streams: Seq<LiveStream>,
)
    ensures
        forall|key: Seq<char>| #[trigger]
            resumed(slots, streams).contains(key) ==> exists|i: int|
                0 <= i < slots.len() && (#[trigger] slots[i]).key@ == key && slots[i].source is Live
                    && slots[i].stalled_at is Some && began_after(
                    streams,
                    slots[i].channel@,
                    slots[i].stalled_at->0,
                ),
        forall|i: int|
            0 <= i < slots.len() && (#[trigger] slots[i]).source is Live && slots[i].stalled_at
                is Some && began_after(streams, slots[i].channel@, slots[i].stalled_at->0) && (
            forall|j: int, k: int|
                0 <= j < streams.len() && 0 <= k < streams.len() && (
                #[trigger] streams[j]).user_login@ == slots[i].channel@ && (
                #[trigger] streams[k]).user_login@ == slots[i].channel@ ==> j == k)
                ==> resumed(slots, streams).contains(slots[i].key@),
        resumed(slots, streams).len() <= slots.len(),
    decreases slots.len(),
{
    if slots.len() > 0 {
        let front = slots.drop_last();
        let before = resumed(front, streams);
        let all = resumed(slots, streams);
        let last = slots[slots.len() - 1];
        law_only_a_new_broadcast_resumes_a_pane(front, streams);
        helix::lemma_stream_of(streams, last.channel@);
        assert forall|key: Seq<char>| #[trigger] all.contains(key) implies exists|i: int|
            0 <= i < slots.len() && (#[trigger] slots[i]).key@ == key && slots[i].source is Live
                && slots[i].stalled_at is Some && began_after(
                streams,
                slots[i].channel@,
                slots[i].stalled_at->0,
            ) by {
            let k = choose|k: int| 0 <= k < all.len() && all[k] == key;
            if k < before.len() {
                assert(before[k] == key);
                assert(before.contains(key));
                let i = choose|i: int|
                    0 <= i < front.len() && (#[trigger] front[i]).key@ == key && front[i].source
                        is Live && front[i].stalled_at is Some && began_after(
                        streams,
                        front[i].channel@,
                        front[i].stalled_at->0,
                    );
                assert(slots[i] == front[i]);
            } else {
                assert(comes_back(last, streams));
                assert(slots[slots.len() - 1].key@ == key);
            }
        }
        assert forall|i: int|
            0 <= i < slots.len() && (#[trigger] slots[i]).source is Live && slots[i].stalled_at
                is Some && began_after(streams, slots[i].channel@, slots[i].stalled_at->0) && (
            forall|j: int, k: int|
                0 <= j < streams.len() && 0 <= k < streams.len() && (
                #[trigger] streams[j]).user_login@ == slots[i].channel@ && (
                #[trigger] streams[k]).user_login@ == slots[i].channel@ ==> j
                    == k) implies all.contains(slots[i].key@) by {
            if i < front.len() {
                assert(front[i] == slots[i]);
                assert(before.contains(slots[i].key@));
                let k = choose|k: int| 0 <= k < before.len() && before[k] == slots[i].key@;
                assert(all[k] == slots[i].key@);
            } else {
                let j = choose|j: int|
                    0 <= j < streams.len() && (#[trigger] streams[j]).user_login@ == last.channel@
                        && (match moment::named(streams[j].started_at@) {
                        Some(began) => began.secs > last.stalled_at->0.secs || (began.secs
                            == last.stalled_at->0.secs && began.nanos > last.stalled_at->0.nanos),
                        None => false,
                    });
                assert(comes_back(last, streams));
                assert(all.last() == last.key@);
            }
        }
    }
}

/// Nobody is announced but those on the list who were not live before, each by
/// name and by what is played, and each of them once for every time on the
/// list.
pub proof fn law_news_are_true(streams: Seq<LiveStream>, known: Seq<Seq<char>>)
    ensures
        forall|k: int|
            0 <= k < newly(streams, known).len() ==> exists|i: int|
                0 <= i < streams.len() && !known.contains((#[trigger] streams[i]).user_login@)
                    && (#[trigger] newly(streams, known)[k]).login == streams[i].user_login@
                    && newly(streams, known)[k].viewers == streams[i].viewer_count && newly(
                    streams,
                    known,
                )[k].text == streams[i].display_name@ + " went live · "@ + streams[i].game_name@,
        newly(streams, known).len() <= streams.len(),
        (forall|i: int|
            0 <= i < streams.len() ==> !known.contains((#[trigger] streams[i]).user_login@))
            ==> newly(streams, known).len() == streams.len(),
    decreases streams.len(),
{
    if streams.len() > 0 {
        let front = streams.drop_last();
        law_news_are_true(front, known);
        let before = newly(front, known);
        let all = newly(streams, known);
        assert forall|k: int| 0 <= k < all.len() implies exists|i: int|
            0 <= i < streams.len() && !known.contains((#[trigger] streams[i]).user_login@) && (
            #[trigger] all[k]).login == streams[i].user_login@ && all[k].viewers
                == streams[i].viewer_count && all[k].text == streams[i].display_name@
                + " went live · "@ + streams[i].game_name@ by {
            if k < before.len() {
                assert(all[k] == before[k]);
                let i = choose|i: int|
                    0 <= i < front.len() && !known.contains((#[trigger] front[i]).user_login@)
                        && before[k].login == front[i].user_login@ && before[k].viewers
                        == front[i].viewer_count && before[k].text == front[i].display_name@
                        + " went live · "@ + front[i].game_name@;
                assert(streams[i] == front[i]);
            } else {
                let i = streams.len() - 1;
                assert(streams[i] == streams.last());
            }
        }
        assert forall|i: int| 0 <= i < front.len() implies front[i] == streams[i] by {}
        if forall|i: int|
            0 <= i < streams.len() ==> !known.contains((#[trigger] streams[i]).user_login@) {
            assert(!known.contains(streams[streams.len() - 1].user_login@));
            assert forall|i: int| 0 <= i < front.len() implies !known.contains(
                (#[trigger] front[i]).user_login@,
            ) by {
                assert(!known.contains(streams[i].user_login@));
            }
        }
    }
}

/// Whoever is not live keeps a place on the other list, in the same order, and
/// nobody else is on it.
pub proof fn law_who_is_not_live_is_kept(
    a: Seq<FollowedChannel>,
    b: Seq<FollowedChannel>,
    one: FollowedChannel,
    live: Seq<Seq<char>>,
)
    ensures
        absent(a + b, live) == absent(a, live) + absent(b, live),
        live.contains(one.login@) ==> absent(seq![one], live) == Seq::<FollowedChannel>::empty(),
        !live.contains(one.login@) ==> absent(seq![one], live) == seq![one],
    decreases b.len(),
{
    assert(seq![one].drop_last() =~= Seq::<FollowedChannel>::empty());
    assert(absent(Seq::<FollowedChannel>::empty(), live) =~= Seq::empty());
    assert(Seq::<FollowedChannel>::empty().push(one) =~= seq![one]);
    if b.len() == 0 {
        assert(a + b =~= a);
        assert(absent(a, live) + absent(b, live) =~= absent(a, live));
    } else {
        law_who_is_not_live_is_kept(a, b.drop_last(), one, live);
        assert((a + b).drop_last() =~= a + b.drop_last());
        assert(absent(a + b, live) =~= absent(a, live) + absent(b, live));
    }
}

/// A list of who is live is taken in whole: it becomes the list, those on it
/// are who is known to be live, and nobody on it stays among the others.
pub proof fn law_a_list_is_taken_in_whole(
    before: Follows,
    streams: Vec<LiveStream>,
    slots: Seq<Slot>,
    after: Follows,
    r: Arrivals,
)
    requires
        before.arrives(streams, slots, after, r),
    ensures
        after.live == streams,
        after.loaded,
        after.seeded,
        after.avatars == before.avatars,
        after.refreshing == before.refreshing,
        after.known_live@.len() == streams@.len(),
        forall|i: int|
            0 <= i < streams@.len() ==> (#[trigger] after.known_live@[i])@
                == streams@[i].user_login@,
        forall|i: int, j: int|
            0 <= i < after.offline@.len() && 0 <= j < streams@.len() ==> (
            #[trigger] after.offline@[i]).login@ != (#[trigger] streams@[j]).user_login@,
        forall|i: int| #![trigger after.offline@[i]]
            0 <= i < after.offline@.len() ==> before.offline@.contains(after.offline@[i]),
{
    let known = text::texts(after.known_live@);
    assert(known.len() == after.known_live@.len());
    assert forall|i: int| 0 <= i < streams@.len() implies (#[trigger] after.known_live@[i])@
        == streams@[i].user_login@ by {
        assert(known[i] == after.known_live@[i]@);
    }
    let live = twitch::logins(streams@);
    lemma_absent(before.offline@, live);
    assert forall|i: int, j: int|
        0 <= i < after.offline@.len() && 0 <= j < streams@.len() implies (
    #[trigger] after.offline@[i]).login@ != (#[trigger] streams@[j]).user_login@ by {
        assert(live[j] == streams@[j].user_login@);
        assert(live.contains(live[j]));
    }
    lemma_absent_is_part(before.offline@, live);
}

proof fn lemma_absent_is_part(list: Seq<FollowedChannel>, live: Seq<Seq<char>>)
    ensures
        forall|i: int| #![trigger absent(list, live)[i]]
            0 <= i < absent(list, live).len() ==> list.contains(absent(list, live)[i]),
    decreases list.len(),
{
    if list.len() > 0 {
        let front = list.drop_last();
        lemma_absent_is_part(front, live);
        let before = absent(front, live);
        let all = absent(list, live);
        assert forall|i: int| #![trigger all[i]] 0 <= i < all.len() implies list.contains(
            all[i],
        ) by {
            if i < before.len() {
                assert(all[i] == before[i]);
                let k = choose|k: int| 0 <= k < front.len() && front[k] == before[i];
                assert(list[k] == all[i]);
            } else {
                assert(list[list.len() - 1] == all[i]);
            }
        }
    }
}

/// The last picture that came for a login is its picture.
pub proof fn law_the_newest_picture_is_shown(
    list: Seq<(String, String)>,
    login: String,
    url: String,
    other: Seq<char>,
)
    ensures
        picture(list.push((login, url)), login@) == Some(url@),
        other != login@ ==> picture(list.push((login, url)), other) == picture(list, other),
{
    assert(list.push((login, url)).drop_last() =~= list);
}

/// What is shown of a narrowed list is what answers, in the order of the list.
pub proof fn law_a_narrowed_list_keeps_its_order(n: int, shown: spec_fn(int) -> bool)
    requires
        0 <= n <= usize::MAX,
    ensures
        forall|i: int, j: int|
            0 <= i < j < places(n, shown).len() ==> #[trigger] places(n, shown)[i]
                < #[trigger] places(n, shown)[j],
        forall|k: int|
            0 <= k < places(n, shown).len() ==> (#[trigger] places(n, shown)[k]) < n && shown(
                places(n, shown)[k] as int,
            ),
        forall|i: int|
            0 <= i < n && #[trigger] shown(i) ==> places(n, shown).contains(i as usize),
    decreases n,
{
    if n > 0 {
        law_a_narrowed_list_keeps_its_order(n - 1, shown);
        let before = places(n - 1, shown);
        let all = places(n, shown);
        assert forall|i: int| 0 <= i < n && #[trigger] shown(i) implies all.contains(
            i as usize,
        ) by {
            if i < n - 1 {
                let k = choose|k: int| 0 <= k < before.len() && before[k] == i as usize;
                assert(all[k] == i as usize);
            } else {
                assert(all.last() == i as usize);
            }
        }
    }
}

} // verus!
